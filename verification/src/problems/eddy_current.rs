//! Eddy currents: the linear problem of one-forms, and the nonlinear screened problem in space.

use crate::assemble::elements::elvecs_of;
use crate::assemble::galerkin::{galvec_pairs, pair_total};
use crate::assemble::galerkin::{assemble_galmat, assemble_galvec, counting, GalMat};
use crate::assemble::nonconforming::{blocks_match, dof_count, nc_supported, projected_entries};
use crate::assemble::nonconforming::assemble_whitney_projected_sparse_inverse_from_blocks;
use crate::exterior::{exterior_dim_spec, pulled_back};
use crate::exterior::{precompose_form, ExteriorElement};
use crate::io::fields::MeshCoords;
use crate::linalg::algebra::{reciprocal_spec, significant, VALUE_RESOLUTION};
use crate::linalg::algebra::{product, sparse_sum};
use crate::linalg::blocks::sign_matrix;
use crate::linalg::csr::compressed;
use crate::linalg::csr::CsrMatrix;
use crate::linalg::dense::DenseMatrix;
use crate::linalg::ring::exact_difference;
use crate::linalg::ring::commutative_ring;
use crate::linalg::scalar::Scalar;
use crate::problems::probe_law::{gives_fields, potential_operator_gives_fields};
use crate::problems::derivative_law::{pairs_derivatives, sandwich_pairs_derivatives};
use crate::linalg::sparse::transposed;
use crate::linalg::sparse::CooMatrix;
use crate::linalg::vectors::{difference_of, sum_of};
use crate::linalg::vectors::{minus, plus};
use crate::operators::elements::{HodgeMassElmat, SimplexGeometry};
use crate::operators::reference::{reference_fits, reference_sizes, standard_subsimps_spec};
use crate::operators::source::source_value;
use crate::operators::source::{ElVecProvider, SourceElVec};
use crate::operators::weights::constant_cell_weights;
use crate::operators::weights::{constant_weights, ScalarWeight, SimplexQuadRule};
use crate::problems::affine::with_affine_term;
use crate::problems::affine::add_sparse_affine_residual;
use crate::problems::elimination::copy_of;
use crate::problems::flux_elements::vector_fault;
use crate::problems::flux_elements::check_vector;
use crate::problems::layout::{bias_at, reduced_position, restricted_vector};
use crate::problems::layout::{
    hard_dirichlet_bias, lift_reduced_with_layout, reduce_square_with_layout,
    reduce_vector_with_layout, reduced_index_map,
};
use crate::problems::mixed_galmats::{
    coo_product, derivative_entries, elmats_match, mass_entries,
};
use crate::problems::nonlinear_magnetostatic::{
    config_source_fault, config_source_values, dimension_fault, vertex_count_fault,
};
use crate::problems::nonlinear_magnetostatic::{
    check_dimension, check_vertex_count, config_source,
};
use crate::problems::probe::{
    probed_jacobian, probed_residual, selected_fault, selected_within,
};
use crate::problems::probe::{check_selected, probe_weak_residual};
use crate::problems::reduced_linear::{is_state_layout, on_active, zeros_of};
use crate::problems::reduced_linear::build_state_layout;
use crate::problems::reluctivity::positive;
use crate::problems::reluctivity::{NonlinearEddyCurrentReluctivityLaw, NonlinearReluctivityLaw};
use crate::problems::residual::is_evaluation;
use crate::problems::residual::{ResidualEvaluation, ResidualModel};
use crate::problems::tetrahedra::{cell_forms_match, tetrahedra_fault, values_fit};
use crate::problems::tetrahedra::forms_of_space;
use crate::problems::tetrahedra::{tetrahedra, CellForms, Tetrahedra};
use crate::problems::vector_potential::{curl_jacobian, curl_residual, full_state};
use crate::problems::vector_potential::assemble_3d_curl_source_free;
use crate::problems::weighted_galmats::{are_masses, are_weighted_masses, cells_match};
use crate::problems::weighted_galmats::{plain_masses, weighted_masses};
use crate::reduction::prescribed_dofs_fault;
use crate::reduction::{DofLayout, EssentialBoundarySpec};
use crate::text::decimal;
use crate::text::{owned, push_decimal};
use crate::topology::complex::Complex;
use crate::topology::simplex::binomial;
use vstd::prelude::*;
use vstd::string::*;

verus! {

/// The matrices of the linear problem on its active edges, and what the prescribed values
/// contribute.
#[derive(Debug, Clone, PartialEq)]
pub struct ReducedEddyCurrent1FormSystem<T> {
    pub curl_curl: CsrMatrix<T>,
    pub conductivity_mass: CsrMatrix<T>,
    pub state_mass: CsrMatrix<T>,
    pub state_mass_inverse: CsrMatrix<T>,
    pub layout: DofLayout<T>,
    pub curl_curl_fixed_bias: Vec<T>,
    pub conductivity_fixed_bias: Vec<T>,
}

impl<T: Scalar> ReducedEddyCurrent1FormSystem<T> {
    pub fn reduced_dimension(&self) -> (n: usize)
        ensures
            n == self.layout.active_dofs@.len(),
    {
        self.layout.reduced_dimension()
    }
}

/// The geometries of the cells, and blocks of the inverse of the lumped mass around the vertices.
pub struct EddyCurrentCells<'a, T> {
    pub geometries: &'a Vec<SimplexGeometry<T>>,
    pub vertex_dofs: &'a [Vec<usize>],
    pub inverse_blocks: &'a [DenseMatrix<T>],
}

impl<'a, T: Scalar> EddyCurrentCells<'a, T> {
    /// The cells belong to a mesh of at least two dimensions.
    pub open spec fn wf(&self, topology: &Complex) -> bool {
        topology.dimension() >= 2 ==> {
            &&& cells_match(*topology, self.geometries@)
            &&& nc_supported(topology, 1)
            &&& reference_fits(topology.dimension() as nat, 1)
            &&& reference_fits(topology.dimension() as nat, 2)
            &&& blocks_match(self.vertex_dofs@, self.inverse_blocks@, dof_count(topology, 1))
        }
    }
}

/// The message for boundary conditions that the problem cannot have.
pub open spec fn auxiliary_message() -> Seq<char> {
    "eddy-current systems do not support auxiliary boundary regions"@
}

/// Fails if there are conditions on an auxiliary unknown.
pub fn ensure_no_auxiliary_regions<T: Scalar>(boundary: &EssentialBoundarySpec<T>) -> (checked:
    Result<(), String>)
    ensures
        checked is Ok == (boundary.auxiliary@.len() == 0),
        checked matches Err(text) ==> text@ == auxiliary_message(),
{
    if boundary.auxiliary.len() != 0 {
        return Err(owned("eddy-current systems do not support auxiliary boundary regions"));
    }
    Ok(())
}

/// The weighted mass of two-forms between derivatives of one-forms.
pub open spec fn curl_curl_entries<T: Scalar>(topology: &Complex, elmats: Seq<Vec<T>>) -> Seq<
    (usize, usize, T),
> {
    let d = derivative_entries::<T>(topology, 1);
    coo_product(
        coo_product(
            compressed(transposed(d)),
            compressed(mass_entries(topology, 2, elmats)),
        ),
        compressed(d),
    )
}

/// The weighted mass of two-forms between derivatives of one-forms.
pub fn assemble_weighted_curl_curl_1form<T: Scalar>(
    topology: &Complex,
    elmats_curl: &Vec<Vec<T>>,
) -> (m: CsrMatrix<T>)
    requires
        topology.wf(),
        topology.dimension() >= 2,
        elmats_match(topology, 2, elmats_curl@),
    ensures
        m.wf(),
        m.rows() == topology.simplices(1).len(),
        m.cols() == topology.simplices(1).len(),
        m.entries() == curl_curl_entries(topology, elmats_curl@),
        commutative_ring::<T>() ==> pairs_derivatives(
            m.entries(),
            derivative_entries::<T>(topology, 1),
            mass_entries(topology, 2, elmats_curl@),
            topology.simplices(1).len(),
            topology.simplices(2).len(),
        ),
{
    let mass_2: GalMat<T> = assemble_galmat(topology, 2, 2, elmats_curl);
    let ghost above = mass_2;
    let mass_2 = CsrMatrix::from_coo(&mass_2);
    let d1: CooMatrix<T> = sign_matrix(&topology.exterior_derivative_operator(1));
    proof {
        if commutative_ring::<T>() {
            sandwich_pairs_derivatives(d1.entries(), above.entries(), d1.cols(), d1.rows());
        }
    }
    let d1_csr = CsrMatrix::from_coo(&d1);
    let d1_t = CsrMatrix::from_coo(&d1.transpose());
    let half = product(&d1_t, &mass_2);
    product(&half, &d1_csr)
}

/// Why there is no linear problem.
pub open spec fn linear_fault<T: Scalar>(
    topology: &Complex,
    coords_dim: nat,
    boundary: EssentialBoundarySpec<T>,
) -> Option<Seq<char>> {
    let dim = topology.dimension() as nat;
    if boundary.auxiliary@.len() != 0 {
        Some(auxiliary_message())
    } else if dim < 2 {
        Some("eddy-current 1-form system requires topology dimension at least 2"@)
    } else if coords_dim != dim {
        Some(
            "eddy-current assembly requires matching intrinsic/ambient dimensions, got topology dim "@
                + decimal(dim) + " and coordinate dim "@ + decimal(coords_dim),
        )
    } else {
        prescribed_dofs_fault("layout"@, topology.simplices(1).len(), boundary.state@)
    }
}

/// What the prescribed values contribute to the active rows.
pub open spec fn active_bias<T: Scalar>(
    entries: Seq<(usize, usize, T)>,
    layout: DofLayout<T>,
) -> Seq<T> {
    Seq::new(
        layout.active_dofs@.len(),
        |r: int| bias_at(entries, layout.active_dofs@, layout.prescribed_dofs@, r),
    )
}

/// The linear problem made of the given element matrices: of the mass of two-forms with the
/// inverse permeability, of the mass of one-forms with the conductivity, and of the mass of
/// one-forms.
pub open spec fn is_linear_system<T: Scalar>(
    system: ReducedEddyCurrent1FormSystem<T>,
    topology: &Complex,
    cells: EddyCurrentCells<T>,
    elmats: (Seq<Vec<T>>, Seq<Vec<T>>, Seq<Vec<T>>),
    boundary: EssentialBoundarySpec<T>,
) -> bool {
    let curl_curl = curl_curl_entries(topology, elmats.0);
    let conductivity = compressed(mass_entries(topology, 1, elmats.1));
    &&& is_state_layout(system.layout, topology.simplices(1).len(), boundary.state@)
    &&& on_active(system.curl_curl, curl_curl, system.layout)
    &&& on_active(system.conductivity_mass, conductivity, system.layout)
    &&& on_active(
        system.state_mass,
        compressed(mass_entries(topology, 1, elmats.2)),
        system.layout,
    )
    &&& on_active(
        system.state_mass_inverse,
        compressed(
            projected_entries(
                cells.vertex_dofs@,
                cells.inverse_blocks@,
                2,
                cells.inverse_blocks@.len() as int,
            ),
        ),
        system.layout,
    )
    &&& system.curl_curl_fixed_bias@ == active_bias(curl_curl, system.layout)
    &&& system.conductivity_fixed_bias@ == active_bias(conductivity, system.layout)
}

/// The element matrices of the linear problem: each cell has an inverse permeability and a
/// conductivity.
pub open spec fn are_linear_elmats<T: Scalar>(
    elmats: (Seq<Vec<T>>, Seq<Vec<T>>, Seq<Vec<T>>),
    providers: (HodgeMassElmat<T>, HodgeMassElmat<T>, HodgeMassElmat<T>),
    dim: nat,
    geometries: Seq<SimplexGeometry<T>>,
    inverse_permeability: Seq<ScalarWeight<T>>,
    conductivity: Seq<ScalarWeight<T>>,
) -> bool {
    &&& are_weighted_masses(elmats.0, providers.0, dim, 2, geometries, inverse_permeability)
    &&& are_weighted_masses(elmats.1, providers.1, dim, 1, geometries, conductivity)
    &&& are_masses(elmats.2, providers.2, dim, 1, geometries)
}

/// The linear problem of a mesh whose cells have an inverse permeability and a conductivity.
pub open spec fn has_linear_system<T: Scalar>(
    system: ReducedEddyCurrent1FormSystem<T>,
    topology: &Complex,
    cells: EddyCurrentCells<T>,
    inverse_permeability: Seq<ScalarWeight<T>>,
    conductivity: Seq<ScalarWeight<T>>,
    boundary: EssentialBoundarySpec<T>,
) -> bool {
    exists|
        elmats: (Seq<Vec<T>>, Seq<Vec<T>>, Seq<Vec<T>>),
        providers: (HodgeMassElmat<T>, HodgeMassElmat<T>, HodgeMassElmat<T>),
    |
        #[trigger] are_linear_elmats(
            elmats,
            providers,
            topology.dimension() as nat,
            cells.geometries@,
            inverse_permeability,
            conductivity,
        ) && is_linear_system(system, topology, cells, elmats, boundary)
}

/// The linear problem on its active edges.
pub fn build_reduced_eddy_current_1form_system<T: Scalar>(
    topology: &Complex,
    coords_dim: usize,
    cells: &EddyCurrentCells<T>,
    inverse_permeability: &Vec<ScalarWeight<T>>,
    conductivity: &Vec<ScalarWeight<T>>,
    boundary: &EssentialBoundarySpec<T>,
) -> (system: Result<ReducedEddyCurrent1FormSystem<T>, String>)
    requires
        topology.wf(),
        coords_dim == topology.dimension() ==> {
            &&& cells.wf(topology)
            &&& inverse_permeability@.len() == cells.geometries@.len()
            &&& conductivity@.len() == cells.geometries@.len()
        },
    ensures
        match linear_fault(topology, coords_dim as nat, *boundary) {
            Some(message) => system matches Err(text) && text@ == message,
            None => system matches Ok(s) && has_linear_system(
                s,
                topology,
                *cells,
                inverse_permeability@,
                conductivity@,
                *boundary,
            ),
        },
{
    match ensure_no_auxiliary_regions(boundary) {
        Err(text) => return Err(text),
        Ok(_) => {},
    }
    proof {
        topology.has_dimension();
    }
    let dim: usize = topology.dim();
    if dim < 2 {
        return Err(owned("eddy-current 1-form system requires topology dimension at least 2"));
    }
    if coords_dim != dim {
        let mut text = owned(
            "eddy-current assembly requires matching intrinsic/ambient dimensions, got topology dim ",
        );
        push_decimal(&mut text, dim);
        text.append(" and coordinate dim ");
        push_decimal(&mut text, coords_dim);
        return Err(text);
    }
    let (curl_elmats, Ghost(of_curl)) = weighted_masses(
        topology,
        2,
        cells.geometries,
        inverse_permeability,
    );
    let (conductivity_elmats, Ghost(of_conductivity)) = weighted_masses(
        topology,
        1,
        cells.geometries,
        conductivity,
    );
    let (mass_elmats, Ghost(of_mass)) = plain_masses(topology, 1, cells.geometries);
    let curl_curl_full = assemble_weighted_curl_curl_1form(topology, &curl_elmats);
    let conductivity_full: GalMat<T> = assemble_galmat(topology, 1, 1, &conductivity_elmats);
    let conductivity_full = CsrMatrix::from_coo(&conductivity_full);
    let mass: GalMat<T> = assemble_galmat(topology, 1, 1, &mass_elmats);
    let mass_full = CsrMatrix::from_coo(&mass);
    let projected: GalMat<T> = assemble_whitney_projected_sparse_inverse_from_blocks(
        topology,
        1,
        cells.vertex_dofs,
        cells.inverse_blocks,
    );
    let inverse_full = CsrMatrix::from_coo(&projected);
    let layout: DofLayout<T> = match build_state_layout(
        curl_curl_full.nrows(),
        boundary.state.as_slice(),
    ) {
        Err(text) => return Err(text),
        Ok(layout) => layout,
    };
    let curl_curl: CsrMatrix<T> = match reduce_square_with_layout(&curl_curl_full, &layout) {
        Err(text) => return Err(text),
        Ok(m) => m,
    };
    let conductivity_mass: CsrMatrix<T> = match reduce_square_with_layout(
        &conductivity_full,
        &layout,
    ) {
        Err(text) => return Err(text),
        Ok(m) => m,
    };
    let state_mass: CsrMatrix<T> = match reduce_square_with_layout(&mass_full, &layout) {
        Err(text) => return Err(text),
        Ok(m) => m,
    };
    let state_mass_inverse: CsrMatrix<T> = match reduce_square_with_layout(
        &inverse_full,
        &layout,
    ) {
        Err(text) => return Err(text),
        Ok(m) => m,
    };
    let curl_curl_fixed_bias = hard_dirichlet_bias(&curl_curl_full, &layout);
    let conductivity_fixed_bias = hard_dirichlet_bias(&conductivity_full, &layout);
    let system = ReducedEddyCurrent1FormSystem {
        curl_curl,
        conductivity_mass,
        state_mass,
        state_mass_inverse,
        layout,
        curl_curl_fixed_bias,
        conductivity_fixed_bias,
    };
    proof {
        let elmats = (curl_elmats@, conductivity_elmats@, mass_elmats@);
        assert(are_linear_elmats(
            elmats,
            (of_curl, of_conductivity, of_mass),
            topology.dimension() as nat,
            cells.geometries@,
            inverse_permeability@,
            conductivity@,
        ));
        assert(is_linear_system(system, topology, *cells, elmats, *boundary));
    }
    Ok(system)
}

/// The values of a source at the active edges.
pub fn reduce_eddy_current_source<T: Scalar>(layout: &DofLayout<T>, source: &[T]) -> (reduced:
    Result<Vec<T>, String>)
    requires
        layout.wf(),
    ensures
        reduced is Ok <==> source@.len() == layout.full_dimension,
        match reduced {
            Ok(reduced) => reduced@ == restricted_vector(source@, layout.active_dofs@),
            Err(e) => e@ == "full vector length "@ + decimal(source@.len())
                + " does not match layout dimension "@ + decimal(layout.full_dimension as nat),
        },
{
    reduce_vector_with_layout(layout, source)
}

/// Fails unless the amplitude of a source is finite and positive.
pub fn validate_source_amplitude<T: Scalar>(amplitude: T) -> (checked: Result<(), String>)
    ensures
        checked is Ok == positive(amplitude),
        checked matches Err(text) ==> text@
            == "screened eddy-current source amplitude must be finite and positive"@,
{
    if !amplitude.is_finite() || amplitude.is_at_most(T::zero()) {
        return Err(owned("screened eddy-current source amplitude must be finite and positive"));
    }
    Ok(())
}

/// The coefficients of the sinusoidal source at a point, given the sines there.
pub open spec fn sinusoidal_value<T: Scalar>(sines: Seq<T>, amplitude: T) -> Seq<T> {
    seq![
        amplitude.times_spec(sines[1]).times_spec(sines[2]),
        amplitude.times_spec(sines[2]).times_spec(sines[0]),
        amplitude.times_spec(sines[0]).times_spec(sines[1]),
    ]
}

/// The sinusoidal source at a point of which the sines of the coordinates, taken over half a
/// period, are given.
pub fn screened_eddy_current_sinusoidal_source_value<T: Scalar>(
    sines: [T; 3],
    amplitude: T,
) -> (value: Result<[T; 3], String>)
    ensures
        value is Ok == positive(amplitude),
        match value {
            Ok(v) => v@ == sinusoidal_value(sines@, amplitude),
            Err(text) => text@
                == "screened eddy-current source amplitude must be finite and positive"@,
        },
{
    match validate_source_amplitude(amplitude) {
        Err(text) => return Err(text),
        Ok(_) => {},
    }
    let value = [
        amplitude.times(sines[1]).times(sines[2]),
        amplitude.times(sines[2]).times(sines[0]),
        amplitude.times(sines[0]).times(sines[1]),
    ];
    proof {
        assert(value@ =~= sinusoidal_value(sines@, amplitude));
    }
    Ok(value)
}

/// Why there is no source on the active edges.
pub open spec fn source_fault<T: Scalar>(
    topology: &Complex,
    coords_dim: nat,
    source_grade: nat,
    source_dim: nat,
    boundary: EssentialBoundarySpec<T>,
) -> Option<Seq<char>> {
    let topology_dim = dimension_fault(
        "screened eddy-current source assembly requires topology dimension 3, got "@,
        topology.dimension() as nat,
        3,
    );
    let coordinates = dimension_fault(
        "screened eddy-current source assembly requires coordinate dimension 3, got "@,
        coords_dim,
        3,
    );
    let grade = dimension_fault(
        "screened eddy-current source must be a 1-form, got grade "@,
        source_grade,
        1,
    );
    let ambient = dimension_fault(
        "screened eddy-current source ambient dimension must be 3, got "@,
        source_dim,
        3,
    );
    if boundary.auxiliary@.len() != 0 {
        Some(auxiliary_message())
    } else if topology_dim is Some {
        topology_dim
    } else if coordinates is Some {
        coordinates
    } else if grade is Some {
        grade
    } else if ambient is Some {
        ambient
    } else {
        prescribed_dofs_fault("layout"@, topology.simplices(1).len(), boundary.state@)
    }
}

/// A source vector on all edges.
pub open spec fn full_source<T: Scalar>(topology: &Complex, elvecs: Seq<Vec<T>>) -> Seq<T> {
    Seq::new(
        topology.simplices(1).len(),
        |r: int|
            pair_total(
                galvec_pairs(
                    topology,
                    topology.dimension(),
                    counting(elvecs.len()),
                    1,
                    elvecs,
                    elvecs.len() as int,
                ),
                r,
            ),
    )
}

/// The cells that a source is integrated over: their geometries, the linear parts of the maps from
/// the reference simplex, and a rule.
pub struct SourceCells<'a, T> {
    pub geometries: &'a Vec<SimplexGeometry<T>>,
    pub linear_maps: &'a Vec<DenseMatrix<T>>,
    pub rule: &'a SimplexQuadRule<T>,
}

impl<'a, T: Scalar> SourceCells<'a, T> {
    /// The cells belong to a mesh in space.
    pub open spec fn wf(&self, topology: &Complex) -> bool {
        &&& cells_match(*topology, self.geometries@)
        &&& self.rule.wf()
        &&& self.rule.dim == 3
        &&& self.linear_maps@.len() == self.geometries@.len()
        &&& forall|i: int|
            0 <= i < self.linear_maps@.len() ==> (#[trigger] self.linear_maps@[i]).wf()
                && self.linear_maps@[i].rows() == 3 && self.linear_maps@[i].cols() == 3
    }
}

/// A field: its degree, the dimension of the space around it, and its coefficients on each cell at
/// the points of a rule.
pub struct SampledField<'a, T> {
    pub grade: usize,
    pub dim: usize,
    pub values: &'a Vec<Vec<Vec<T>>>,
}

impl<'a, T: Scalar> SampledField<'a, T> {
    /// The field is a one-form in space, with coefficients at all points of all cells.
    pub open spec fn samples(&self, ncells: nat, npoints: nat) -> bool {
        &&& self.values@.len() == ncells
        &&& forall|i: int| 0 <= i < ncells ==> (#[trigger] self.values@[i])@.len() == npoints
        &&& forall|i: int, q: int|
            0 <= i < ncells && 0 <= q < npoints ==> (#[trigger] self.values@[i]@[q])@.len() == 3
    }
}

/// The coefficients of a one-form on the reference simplex, for all cells and points.
pub open spec fn are_pulled_back<T: Scalar>(
    pulled: Seq<Vec<Vec<T>>>,
    values: Seq<Vec<Vec<T>>>,
    linear_maps: Seq<DenseMatrix<T>>,
    npoints: nat,
) -> bool {
    &&& pulled.len() == values.len()
    &&& forall|i: int| 0 <= i < pulled.len() ==> (#[trigger] pulled[i])@.len() == npoints
    &&& forall|i: int, q: int|
        0 <= i < pulled.len() && 0 <= q < npoints ==> (#[trigger] pulled[i]@[q])@ == pulled_back(
            values[i]@[q]@,
            1,
            linear_maps[i],
        )
}

fn pull_back_values<T: Scalar>(
    values: &Vec<Vec<T>>,
    linear_map: &DenseMatrix<T>,
) -> (pulled: Vec<Vec<T>>)
    requires
        linear_map.wf(),
        linear_map.rows() == 3,
        linear_map.cols() == 3,
        forall|q: int| 0 <= q < values@.len() ==> (#[trigger] values@[q])@.len() == 3,
    ensures
        pulled@.len() == values@.len(),
        forall|q: int|
            0 <= q < pulled@.len() ==> (#[trigger] pulled@[q])@ == pulled_back(
                values@[q]@,
                1,
                *linear_map,
            ) && pulled@[q]@.len() == 3,
{
    let mut pulled: Vec<Vec<T>> = Vec::new();
    let mut q: usize = 0;
    while q < values.len()
        invariant
            q <= values@.len(),
            linear_map.wf(),
            linear_map.rows() == 3,
            linear_map.cols() == 3,
            forall|q: int| 0 <= q < values@.len() ==> (#[trigger] values@[q])@.len() == 3,
            pulled@.len() == q,
            forall|k: int|
                0 <= k < q ==> (#[trigger] pulled@[k])@ == pulled_back(
                    values@[k]@,
                    1,
                    *linear_map,
                ) && pulled@[k]@.len() == 3,
        decreases values@.len() - q,
    {
        proof {
            forms_of_space();
            assert(values@[q as int]@.len() == 3);
        }
        let coeffs = copy_of(values[q].as_slice());
        let form = ExteriorElement { coeffs, dim: 3, grade: 1 };
        pulled.push(precompose_form(&form, linear_map).coeffs);
        q = q + 1;
    }
    pulled
}

fn pull_back_field<T: Scalar>(field: &SampledField<T>, cells: &SourceCells<T>) -> (pulled: Vec<
    Vec<Vec<T>>,
>)
    requires
        cells.linear_maps@.len() == cells.geometries@.len(),
        forall|i: int|
            0 <= i < cells.linear_maps@.len() ==> (#[trigger] cells.linear_maps@[i]).wf()
                && cells.linear_maps@[i].rows() == 3 && cells.linear_maps@[i].cols() == 3,
        field.samples(cells.geometries@.len(), cells.rule.points@.len()),
    ensures
        are_pulled_back(
            pulled@,
            field.values@,
            cells.linear_maps@,
            cells.rule.points@.len(),
        ),
        forall|i: int, q: int|
            0 <= i < pulled@.len() && 0 <= q < cells.rule.points@.len() ==> (
            #[trigger] pulled@[i]@[q])@.len() == 3,
{
    let ghost npoints = cells.rule.points@.len();
    let mut pulled: Vec<Vec<Vec<T>>> = Vec::new();
    let mut i: usize = 0;
    while i < field.values.len()
        invariant
            i <= field.values@.len(),
            cells.linear_maps@.len() == cells.geometries@.len(),
            forall|i: int|
                0 <= i < cells.linear_maps@.len() ==> (#[trigger] cells.linear_maps@[i]).wf()
                    && cells.linear_maps@[i].rows() == 3 && cells.linear_maps@[i].cols() == 3,
            npoints == cells.rule.points@.len(),
            field.samples(cells.geometries@.len(), npoints),
            pulled@.len() == i,
            forall|k: int| 0 <= k < i ==> (#[trigger] pulled@[k])@.len() == npoints,
            forall|k: int, q: int|
                0 <= k < i && 0 <= q < npoints ==> (#[trigger] pulled@[k]@[q])@ == pulled_back(
                    field.values@[k]@[q]@,
                    1,
                    cells.linear_maps@[k],
                ) && pulled@[k]@[q]@.len() == 3,
        decreases field.values@.len() - i,
    {
        proof {
            assert(cells.linear_maps@[i as int].wf());
            assert(field.values@[i as int]@.len() == npoints);
            assert forall|q: int| 0 <= q < npoints implies (
            #[trigger] field.values@[i as int]@[q])@.len() == 3 by {}
        }
        let next = pull_back_values(&field.values[i], &cells.linear_maps[i]);
        pulled.push(next);
        i = i + 1;
    }
    pulled
}

/// A source on the active edges: the inner products of the field with the Whitney forms of the
/// edges, by quadrature on the cells.
pub open spec fn is_source<T: Scalar>(
    source: Seq<T>,
    topology: &Complex,
    cells: SourceCells<T>,
    values: Seq<Vec<Vec<T>>>,
    boundary: EssentialBoundarySpec<T>,
    pulled: Seq<Vec<Vec<T>>>,
    elvecs: Seq<Vec<T>>,
    layout: DofLayout<T>,
) -> bool {
    &&& are_pulled_back(pulled, values, cells.linear_maps@, cells.rule.points@.len())
    &&& elvecs.len() == cells.geometries@.len()
    &&& forall|i: int|
        0 <= i < elvecs.len() ==> (#[trigger] elvecs[i])@ == Seq::new(
            standard_subsimps_spec(3, 1).len(),
            |s: int| source_value(cells.geometries@[i], 1, *cells.rule, pulled[i]@, s),
        )
    &&& is_state_layout(layout, topology.simplices(1).len(), boundary.state@)
    &&& source == restricted_vector(full_source(topology, elvecs), layout.active_dofs@)
}

/// The source of a field with the given coefficients.
pub open spec fn has_source<T: Scalar>(
    source: Seq<T>,
    topology: &Complex,
    cells: SourceCells<T>,
    values: Seq<Vec<Vec<T>>>,
    boundary: EssentialBoundarySpec<T>,
) -> bool {
    exists|pulled: Seq<Vec<Vec<T>>>, elvecs: Seq<Vec<T>>, layout: DofLayout<T>| #[trigger]
        is_source(source, topology, cells, values, boundary, pulled, elvecs, layout)
}

/// A source on the active edges, from a field.
pub fn assemble_reduced_eddy_current_1form_source<T: Scalar>(
    topology: &Complex,
    coords_dim: usize,
    boundary: &EssentialBoundarySpec<T>,
    cells: &SourceCells<T>,
    field: &SampledField<T>,
) -> (source: Result<Vec<T>, String>)
    requires
        topology.wf(),
        topology.dimension() == 3 && coords_dim == 3 && field.grade == 1 && field.dim == 3
            ==> cells.wf(topology) && field.samples(
            cells.geometries@.len(),
            cells.rule.points@.len(),
        ),
    ensures
        match source_fault(
            topology,
            coords_dim as nat,
            field.grade as nat,
            field.dim as nat,
            *boundary,
        ) {
            Some(message) => source matches Err(text) && text@ == message,
            None => source matches Ok(s) && has_source(
                s@,
                topology,
                *cells,
                field.values@,
                *boundary,
            ),
        },
{
    match ensure_no_auxiliary_regions(boundary) {
        Err(text) => return Err(text),
        Ok(_) => {},
    }
    match check_dimension(
        "screened eddy-current source assembly requires topology dimension 3, got ",
        topology.dim(),
        3,
    ) {
        Err(text) => return Err(text),
        Ok(_) => {},
    }
    match check_dimension(
        "screened eddy-current source assembly requires coordinate dimension 3, got ",
        coords_dim,
        3,
    ) {
        Err(text) => return Err(text),
        Ok(_) => {},
    }
    match check_dimension(
        "screened eddy-current source must be a 1-form, got grade ",
        field.grade,
        1,
    ) {
        Err(text) => return Err(text),
        Ok(_) => {},
    }
    match check_dimension(
        "screened eddy-current source ambient dimension must be 3, got ",
        field.dim,
        3,
    ) {
        Err(text) => return Err(text),
        Ok(_) => {},
    }
    proof {
        forms_of_space();
        reference_sizes(3, 1);
    }
    let pulled = pull_back_field(field, cells);
    let provider = SourceElVec::new(1, cells.rule, &pulled);
    proof {
        assert forall|i: int| 0 <= i < cells.geometries@.len() implies provider.accepts(
            #[trigger] cells.geometries@[i],
            i,
        ) by {
            assert(pulled@[i]@.len() == cells.rule.points@.len());
            assert forall|q: int| 0 <= q < pulled@[i]@.len() implies (
            #[trigger] provider.values@[i]@[q])@.len() == exterior_dim_spec(3, 1) by {
                assert(pulled@[i]@[q]@.len() == 3);
            }
        }
    }
    let elvecs = elvecs_of(&provider, cells.geometries);
    proof {
        assert forall|i: int| 0 <= i < elvecs@.len() implies (#[trigger] elvecs@[i])@.len()
            == binomial(4, 2) by {
            assert(elvecs@[i]@ == provider.elvec(cells.geometries@[i], i));
        }
    }
    let full = assemble_galvec(topology, 1, &elvecs);
    proof {
        assert(full@ =~= full_source(topology, elvecs@));
    }
    let layout: DofLayout<T> = match build_state_layout(
        topology.nsimplices(1),
        boundary.state.as_slice(),
    ) {
        Err(text) => return Err(text),
        Ok(layout) => layout,
    };
    let reduced = reduce_vector_with_layout(&layout, full.as_slice());
    proof {
        assert forall|i: int| 0 <= i < elvecs@.len() implies (#[trigger] elvecs@[i])@ == Seq::new(
            standard_subsimps_spec(3, 1).len(),
            |s: int| source_value(cells.geometries@[i], 1, *cells.rule, pulled@[i]@, s),
        ) by {
            assert(elvecs@[i]@ == provider.elvec(cells.geometries@[i], i));
        }
        assert(is_source(
            reduced->Ok_0@,
            topology,
            *cells,
            field.values@,
            *boundary,
            pulled@,
            elvecs@,
            layout,
        ));
    }
    reduced
}

/// The coefficients of the sinusoidal source at all points of all cells.
pub open spec fn are_sinusoidal<T: Scalar>(
    values: Seq<Vec<Vec<T>>>,
    sines: Seq<Vec<[T; 3]>>,
    amplitude: T,
) -> bool {
    &&& values.len() == sines.len()
    &&& forall|i: int| 0 <= i < values.len() ==> (#[trigger] values[i])@.len() == sines[i]@.len()
    &&& forall|i: int, q: int|
        0 <= i < values.len() && 0 <= q < sines[i]@.len() ==> (#[trigger] values[i]@[q])@
            == sinusoidal_value(sines[i]@[q]@, amplitude)
}

fn sinusoidal_values<T: Scalar>(sines: &Vec<[T; 3]>, amplitude: T) -> (values: Result<
    Vec<Vec<T>>,
    String,
>)
    requires
        positive(amplitude),
    ensures
        values matches Ok(values) && values@.len() == sines@.len() && forall|q: int|
            0 <= q < values@.len() ==> (#[trigger] values@[q])@ == sinusoidal_value(
                sines@[q]@,
                amplitude,
            ),
{
    let mut values: Vec<Vec<T>> = Vec::new();
    let mut q: usize = 0;
    while q < sines.len()
        invariant
            q <= sines@.len(),
            positive(amplitude),
            values@.len() == q,
            forall|k: int|
                0 <= k < q ==> (#[trigger] values@[k])@ == sinusoidal_value(
                    sines@[k]@,
                    amplitude,
                ),
        decreases sines@.len() - q,
    {
        match screened_eddy_current_sinusoidal_source_value(sines[q], amplitude) {
            Err(text) => return Err(text),
            Ok(value) => values.push(copy_of(value.as_slice())),
        }
        q = q + 1;
    }
    Ok(values)
}

/// The coefficients of the sinusoidal source on each cell at the points of a rule, given the sines
/// of the coordinates there, taken over half a period.
pub fn screened_eddy_current_sinusoidal_source<T: Scalar>(
    sines: &Vec<Vec<[T; 3]>>,
    amplitude: T,
) -> (values: Result<Vec<Vec<Vec<T>>>, String>)
    ensures
        values is Ok == positive(amplitude),
        match values {
            Ok(values) => are_sinusoidal(values@, sines@, amplitude),
            Err(text) => text@
                == "screened eddy-current source amplitude must be finite and positive"@,
        },
{
    match validate_source_amplitude(amplitude) {
        Err(text) => return Err(text),
        Ok(_) => {},
    }
    let mut values: Vec<Vec<Vec<T>>> = Vec::new();
    let mut i: usize = 0;
    while i < sines.len()
        invariant
            i <= sines@.len(),
            positive(amplitude),
            values@.len() == i,
            forall|k: int| 0 <= k < i ==> (#[trigger] values@[k])@.len() == sines@[k]@.len(),
            forall|k: int, q: int|
                0 <= k < i && 0 <= q < sines@[k]@.len() ==> (#[trigger] values@[k]@[q])@
                    == sinusoidal_value(sines@[k]@[q]@, amplitude),
        decreases sines@.len() - i,
    {
        match sinusoidal_values(&sines[i], amplitude) {
            Err(text) => return Err(text),
            Ok(next) => values.push(next),
        }
        i = i + 1;
    }
    Ok(values)
}

/// The sines of the coordinates at all points of all cells.
pub open spec fn sines_match<T>(sines: Seq<Vec<[T; 3]>>, ncells: nat, npoints: nat) -> bool {
    &&& sines.len() == ncells
    &&& forall|i: int| 0 <= i < ncells ==> (#[trigger] sines[i])@.len() == npoints
}

/// The sinusoidal source on the active edges, from the sines of the coordinates on each cell at
/// the points of a rule, taken over half a period.
pub fn assemble_reduced_screened_eddy_current_sinusoidal_source<T: Scalar>(
    topology: &Complex,
    coords_dim: usize,
    boundary: &EssentialBoundarySpec<T>,
    cells: &SourceCells<T>,
    sines: &Vec<Vec<[T; 3]>>,
    amplitude: T,
) -> (source: Result<Vec<T>, String>)
    requires
        topology.wf(),
        topology.dimension() == 3 && coords_dim == 3 ==> cells.wf(topology) && sines_match(
            sines@,
            cells.geometries@.len(),
            cells.rule.points@.len(),
        ),
    ensures
        !positive(amplitude) ==> (source matches Err(text) && text@
            == "screened eddy-current source amplitude must be finite and positive"@),
        positive(amplitude) ==> match source_fault(
            topology,
            coords_dim as nat,
            1,
            3,
            *boundary,
        ) {
            Some(message) => source matches Err(text) && text@ == message,
            None => source matches Ok(s) && exists|values: Seq<Vec<Vec<T>>>| #[trigger]
                are_sinusoidal(values, sines@, amplitude) && has_source(
                    s@,
                    topology,
                    *cells,
                    values,
                    *boundary,
                ),
        },
{
    let values: Vec<Vec<Vec<T>>> = match screened_eddy_current_sinusoidal_source(
        sines,
        amplitude,
    ) {
        Err(text) => return Err(text),
        Ok(values) => values,
    };
    let field = SampledField { grade: 1, dim: 3, values: &values };
    proof {
        if topology.dimension() == 3 && coords_dim == 3 {
            let npoints = cells.rule.points@.len();
            assert forall|i: int, q: int|
                0 <= i < values@.len() && 0 <= q < npoints implies (
            #[trigger] field.values@[i]@[q])@.len() == 3 by {
                assert(sines@[i]@.len() == npoints);
                assert(values@[i]@[q]@ == sinusoidal_value(sines@[i]@[q]@, amplitude));
            }
            assert forall|i: int| 0 <= i < values@.len() implies (
            #[trigger] field.values@[i])@.len() == npoints by {
                assert(sines@[i]@.len() == npoints);
            }
        }
    }
    assemble_reduced_eddy_current_1form_source(topology, coords_dim, boundary, cells, &field)
}

/// A reluctivity, a conductivity, a source on the active edges, and boundary conditions.
#[derive(Debug, Clone, PartialEq)]
pub struct NonlinearScreenedEddyCurrentAssemblyConfig<T> {
    pub reluctivity: NonlinearEddyCurrentReluctivityLaw<T>,
    pub sigma: T,
    pub source: Option<Vec<T>>,
    pub boundary: EssentialBoundarySpec<T>,
}

impl<T: Scalar> NonlinearScreenedEddyCurrentAssemblyConfig<T> {
    pub fn new(
        reluctivity: NonlinearEddyCurrentReluctivityLaw<T>,
        sigma: T,
        boundary: EssentialBoundarySpec<T>,
    ) -> (config: Self)
        ensures
            config.reluctivity == reluctivity,
            config.sigma == sigma,
            config.source is None,
            config.boundary == boundary,
    {
        NonlinearScreenedEddyCurrentAssemblyConfig { reluctivity, sigma, source: None, boundary }
    }

    pub fn with_source(self, source: Vec<T>) -> (config: Self)
        ensures
            config.reluctivity == self.reluctivity,
            config.sigma == self.sigma,
            config.source == Some(source),
            config.boundary == self.boundary,
    {
        NonlinearScreenedEddyCurrentAssemblyConfig {
            reluctivity: self.reluctivity,
            sigma: self.sigma,
            source: Some(source),
            boundary: self.boundary,
        }
    }
}

/// The nonlinear screened problem on its active edges.
#[derive(Debug, Clone, PartialEq)]
pub struct ReducedNonlinearScreenedEddyCurrent1Form<T> {
    pub reluctivity: NonlinearEddyCurrentReluctivityLaw<T>,
    pub sigma: T,
    pub layout: DofLayout<T>,
    pub source: Vec<T>,
    pub cells: Tetrahedra<T>,
    pub conductivity_mass: CsrMatrix<T>,
    pub conductivity_bias: Vec<T>,
    pub state_mass: CsrMatrix<T>,
    pub state_mass_inverse: CsrMatrix<T>,
    pub beta_zero_operator: CsrMatrix<T>,
    pub beta_zero_bias: Vec<T>,
}

/// The law as a material.
pub open spec fn material_of<T: Scalar>(law: NonlinearEddyCurrentReluctivityLaw<T>) ->
    NonlinearReluctivityLaw<T> {
    NonlinearReluctivityLaw { nu0: law.nu0, beta: law.beta }
}

/// What the first `n` edges of a cell contribute to the vector potential there.
pub open spec fn cell_potential_terms<T: Scalar>(
    edges: Seq<usize>,
    values: Seq<Vec<T>>,
    active: Seq<usize>,
    place: int,
    n: int,
) -> Seq<(usize, usize, T)>
    decreases n,
{
    if n <= 0 {
        Seq::empty()
    } else {
        let before = cell_potential_terms(edges, values, active, place, n - 1);
        match reduced_position(active, edges[n - 1]) {
            Some(col) => before + seq![
                (place as usize, col, values[n - 1]@[0]),
                ((place + 1) as usize, col, values[n - 1]@[1]),
                ((place + 2) as usize, col, values[n - 1]@[2]),
            ],
            None => before,
        }
    }
}

/// What the first `n` cells contribute to the vector potential.
pub open spec fn potential_terms<T: Scalar>(
    cells: Tetrahedra<T>,
    active: Seq<usize>,
    n: int,
) -> Seq<(usize, usize, T)>
    decreases n,
{
    if n <= 0 {
        Seq::empty()
    } else {
        potential_terms(cells, active, n - 1) + cell_potential_terms(
            cells.elements@[n - 1].dofs@,
            cells.values@[n - 1]@,
            active,
            3 * (n - 1),
            cells.elements@[n - 1].dofs@.len() as int,
        )
    }
}

impl<T: Scalar> ReducedNonlinearScreenedEddyCurrent1Form<T> {
    /// Everything belongs to the active edges.
    pub open spec fn wf(&self) -> bool {
        let n = self.layout.active_dofs@.len();
        &&& self.layout.wf()
        &&& self.source@.len() == n
        &&& self.cells.wf(self.layout.full_dimension as int)
        &&& self.conductivity_mass.wf()
        &&& self.conductivity_mass.rows() == n
        &&& self.conductivity_mass.cols() == n
        &&& self.conductivity_bias@.len() == n
        &&& self.state_mass_inverse.wf()
        &&& self.state_mass_inverse.rows() == n
        &&& self.state_mass_inverse.cols() == n
    }

    /// The residual without the source.
    pub open spec fn source_free_spec(&self, state: Seq<T>) -> Seq<T> {
        with_affine_term(
            curl_residual(material_of(self.reluctivity), self.cells, self.layout, state),
            self.conductivity_mass.entries(),
            self.conductivity_bias@,
            state,
        )
    }

    pub fn reduced_dimension(&self) -> (n: usize)
        ensures
            n == self.layout.active_dofs@.len(),
    {
        self.layout.reduced_dimension()
    }

    pub fn layout(&self) -> (layout: &DofLayout<T>)
        ensures
            *layout == self.layout,
    {
        &self.layout
    }

    pub fn reluctivity(&self) -> (law: NonlinearEddyCurrentReluctivityLaw<T>)
        ensures
            law == self.reluctivity,
    {
        self.reluctivity
    }

    pub fn sigma(&self) -> (sigma: T)
        ensures
            sigma == self.sigma,
    {
        self.sigma
    }

    pub fn source(&self) -> (source: &[T])
        ensures
            source@ == self.source@,
    {
        self.source.as_slice()
    }

    pub fn num_elements(&self) -> (n: usize)
        ensures
            n == self.cells.elements@.len(),
    {
        self.cells.elements.len()
    }

    pub fn state_mass(&self) -> (m: &CsrMatrix<T>)
        ensures
            *m == self.state_mass,
    {
        &self.state_mass
    }

    pub fn state_mass_inverse(&self) -> (m: &CsrMatrix<T>)
        ensures
            *m == self.state_mass_inverse,
    {
        &self.state_mass_inverse
    }

    pub fn beta_zero_operator(&self) -> (m: &CsrMatrix<T>)
        ensures
            *m == self.beta_zero_operator,
    {
        &self.beta_zero_operator
    }

    pub fn beta_zero_bias(&self) -> (bias: &[T])
        ensures
            bias@ == self.beta_zero_bias@,
    {
        self.beta_zero_bias.as_slice()
    }

    /// The problem with another source, if this has a finite value for each active edge.
    pub fn with_source(self, source: Vec<T>) -> (model: Result<Self, String>)
        requires
            self.wf(),
        ensures
            match vector_fault(
                "nonlinear screened eddy-current"@,
                " reduced source"@,
                source@,
                self.layout.active_dofs@.len(),
            ) {
                Some(message) => model matches Err(text) && text@ == message,
                None => model matches Ok(m) && m.wf() && m.source == source && m.reluctivity
                    == self.reluctivity && m.sigma == self.sigma && m.layout == self.layout
                    && m.cells == self.cells && m.conductivity_mass == self.conductivity_mass
                    && m.conductivity_bias == self.conductivity_bias && m.state_mass
                    == self.state_mass && m.state_mass_inverse == self.state_mass_inverse
                    && m.beta_zero_operator == self.beta_zero_operator && m.beta_zero_bias
                    == self.beta_zero_bias,
            },
    {
        match check_vector(
            "nonlinear screened eddy-current",
            " reduced source",
            source.as_slice(),
            self.layout.reduced_dimension(),
        ) {
            Err(text) => return Err(text),
            Ok(_) => {},
        }
        Ok(
            ReducedNonlinearScreenedEddyCurrent1Form {
                reluctivity: self.reluctivity,
                sigma: self.sigma,
                layout: self.layout,
                source,
                cells: self.cells,
                conductivity_mass: self.conductivity_mass,
                conductivity_bias: self.conductivity_bias,
                state_mass: self.state_mass,
                state_mass_inverse: self.state_mass_inverse,
                beta_zero_operator: self.beta_zero_operator,
                beta_zero_bias: self.beta_zero_bias,
            },
        )
    }

    /// The residual without the source and its Jacobian.
    pub fn source_free_residual_and_jacobian(&self, reduced_state: &[T]) -> (outcome: Result<
        ResidualEvaluation<T>,
        String,
    >)
        requires
            self.wf(),
        ensures
            match self.state_fault(reduced_state@) {
                Some(message) => outcome matches Err(text) && text@ == message,
                None => outcome matches Ok(e) && is_evaluation(
                    e,
                    self.source_free_spec(reduced_state@),
                    self.jacobian_spec(reduced_state@),
                    self.layout.active_dofs@.len(),
                    self.layout.active_dofs@.len(),
                ),
            },
    {
        match check_vector(
            "nonlinear screened eddy-current",
            " state",
            reduced_state,
            self.layout.reduced_dimension(),
        ) {
            Err(text) => return Err(text),
            Ok(_) => {},
        }
        let material = NonlinearReluctivityLaw {
            nu0: self.reluctivity.nu0,
            beta: self.reluctivity.beta,
        };
        let curl = assemble_3d_curl_source_free(
            &material,
            &self.cells,
            &self.layout,
            reduced_state,
        );
        let jacobian: CsrMatrix<T> = match sparse_sum(&curl.jacobian, &self.conductivity_mass) {
            Err(text) => return Err(text),
            Ok(jacobian) => jacobian,
        };
        let mut residual: Vec<T> = curl.residual;
        add_sparse_affine_residual(
            &mut residual,
            &self.conductivity_mass,
            self.conductivity_bias.as_slice(),
            reduced_state,
        );
        Ok(ResidualEvaluation { residual, jacobian })
    }

    /// The source for which a state solves the problem.
    pub fn manufactured_source(&self, reduced_state: &[T]) -> (source: Result<Vec<T>, String>)
        requires
            self.wf(),
        ensures
            match self.state_fault(reduced_state@) {
                Some(message) => source matches Err(text) && text@ == message,
                None => source matches Ok(s) && s@ == self.source_free_spec(reduced_state@),
            },
    {
        match self.source_free_residual_and_jacobian(reduced_state) {
            Err(text) => Err(text),
            Ok(evaluation) => Ok(evaluation.residual),
        }
    }

    /// The operator that gives the vector potential at the barycenter of each cell, three
    /// components for each.
    pub fn cell_vector_potential_operator(&self) -> (operator: CsrMatrix<T>)
        requires
            self.wf(),
            3 * self.cells.elements@.len() <= usize::MAX,
        ensures
            operator.wf(),
            operator.rows() == 3 * self.cells.elements@.len(),
            operator.cols() == self.layout.active_dofs@.len(),
            operator.entries() == compressed(
                potential_terms(
                    self.cells,
                    self.layout.active_dofs@,
                    self.cells.elements@.len() as int,
                ),
            ),
            commutative_ring::<T>() ==> gives_fields(
                operator.entries(),
                self.cells,
                self.layout.active_dofs@,
                self.layout.full_dimension as nat,
            ),
    {
        let map = reduced_index_map(&self.layout);
        let ncells: usize = self.cells.elements.len();
        let n: usize = self.layout.reduced_dimension();
        let ghost active = self.layout.active_dofs@;
        let mut operator: CooMatrix<T> = CooMatrix::zeros(3 * ncells, n);
        let mut c: usize = 0;
        while c < ncells
            invariant
                c <= ncells,
                ncells == self.cells.elements@.len(),
                3 * ncells <= usize::MAX,
                self.cells.wf(map@.len() as int),
                forall|i: int|
                    0 <= i < map@.len() ==> #[trigger] map@[i] == reduced_position(
                        active,
                        i as usize,
                    ),
                forall|i: int|
                    0 <= i < map@.len() && (#[trigger] map@[i]) is Some ==> map@[i]->0 < n,
                operator.wf(),
                operator.rows() == 3 * ncells,
                operator.cols() == n,
                operator.entries() =~= potential_terms(self.cells, active, c as int),
            decreases ncells - c,
        {
            proof {
                assert(self.cells.elements@[c as int].wf(map@.len() as int, 3));
                assert(values_fit(
                    self.cells.values@[c as int]@,
                    self.cells.elements@[c as int].dofs@.len(),
                ));
            }
            let element = &self.cells.elements[c];
            let values = &self.cells.values[c];
            let ghost start = operator.entries();
            let mut l: usize = 0;
            while l < element.dofs.len()
                invariant
                    l <= element.dofs@.len(),
                    c < ncells,
                    3 * ncells <= usize::MAX,
                    element.wf(map@.len() as int, 3),
                    values_fit(values@, element.dofs@.len()),
                    forall|i: int|
                        0 <= i < map@.len() ==> #[trigger] map@[i] == reduced_position(
                            active,
                            i as usize,
                        ),
                    forall|i: int|
                        0 <= i < map@.len() && (#[trigger] map@[i]) is Some ==> map@[i]->0 < n,
                    operator.wf(),
                    operator.rows() == 3 * ncells,
                    operator.cols() == n,
                    operator.entries() =~= start + cell_potential_terms(
                        element.dofs@,
                        values@,
                        active,
                        3 * c,
                        l as int,
                    ),
                decreases element.dofs@.len() - l,
            {
                let edge: usize = element.dofs[l];
                proof {
                    assert(element.dofs@[l as int] < map@.len());
                    assert(values@[l as int]@.len() == 3);
                    assert(map@[edge as int] == reduced_position(active, edge));
                }
                if let Some(col) = map[edge] {
                    operator.push(3 * c, col, values[l][0]);
                    operator.push(3 * c + 1, col, values[l][1]);
                    operator.push(3 * c + 2, col, values[l][2]);
                }
                l = l + 1;
            }
            c = c + 1;
        }
        proof {
            if commutative_ring::<T>() {
                potential_operator_gives_fields(
                    self.cells,
                    active,
                    self.layout.full_dimension as nat,
                );
            }
        }
        CsrMatrix::from_coo(&operator)
    }

    /// The volumes of the cells.
    pub fn cell_volumes(&self) -> (volumes: Vec<T>)
        ensures
            volumes@ == Seq::new(
                self.cells.elements@.len(),
                |e: int| self.cells.elements@[e].measure,
            ),
    {
        let mut volumes: Vec<T> = Vec::new();
        let mut e: usize = 0;
        while e < self.cells.elements.len()
            invariant
                e <= self.cells.elements@.len(),
                volumes@ =~= Seq::new(e as nat, |i: int| self.cells.elements@[i].measure),
            decreases self.cells.elements@.len() - e,
        {
            volumes.push(self.cells.elements[e].measure);
            e = e + 1;
        }
        volumes
    }

    /// The values on all edges.
    pub fn lift_reduced_state(&self, reduced_state: &[T]) -> (full: Result<Vec<T>, String>)
        requires
            self.wf(),
        ensures
            full is Ok <==> reduced_state@.len() == self.layout.active_dofs@.len(),
            match full {
                Ok(full) => full@ == full_state(self.layout, reduced_state@),
                Err(e) => e@ == "reduced vector length "@ + decimal(reduced_state@.len())
                    + " does not match layout active dimension "@ + decimal(
                    self.layout.active_dofs@.len(),
                ),
            },
    {
        lift_reduced_with_layout(&self.layout, reduced_state)
    }

    /// The source only shifts the residual: the derivative is that of the problem with any other
    /// source, and the residual is what the state leaves without a source, less the source.
    pub proof fn source_only_shifts(&self, other: Self, state: Seq<T>)
        requires
            other == (Self { source: other.source, ..*self }),
        ensures
            self.jacobian_spec(state) == other.jacobian_spec(state),
            self.residual_spec(state) == difference_of(self.source_free_spec(state), self.source@),
            other.residual_spec(state) == difference_of(
                self.source_free_spec(state),
                other.source@,
            ),
    {
    }

    /// With the source that is manufactured for a state, the residual of the state vanishes, and
    /// the derivative is that of the problem without or with another source. This holds for
    /// coefficients with exact differences.
    pub proof fn manufactured_source_solves(&self, other: Self, state: Seq<T>)
        requires
            exact_difference::<T>(),
            other == (Self { source: other.source, ..*self }),
            self.source@ == self.source_free_spec(state),
        ensures
            self.residual_spec(state) == zeros_of::<T>(self.layout.active_dofs@.len()),
            self.jacobian_spec(state) == other.jacobian_spec(state),
    {
        let r = self.source_free_spec(state);
        assert forall|i: int| 0 <= i < r.len() implies self.residual_spec(state)[i]
            == T::zero_spec() by {
            assert(r[i].minus_spec(r[i]) == T::zero_spec());
        }
        assert(self.residual_spec(state) =~= zeros_of::<T>(self.layout.active_dofs@.len()));
    }
}

impl<T: Scalar> ResidualModel<T> for ReducedNonlinearScreenedEddyCurrent1Form<T> {
    open spec fn valid(&self) -> bool {
        self.wf()
    }

    open spec fn state_dim(&self) -> nat {
        self.layout.active_dofs@.len()
    }

    open spec fn residual_dim(&self) -> nat {
        self.layout.active_dofs@.len()
    }

    open spec fn state_fault(&self, state: Seq<T>) -> Option<Seq<char>> {
        vector_fault(
            "nonlinear screened eddy-current"@,
            " state"@,
            state,
            self.layout.active_dofs@.len(),
        )
    }

    open spec fn residual_spec(&self, state: Seq<T>) -> Seq<T> {
        difference_of(self.source_free_spec(state), self.source@)
    }

    open spec fn jacobian_spec(&self, state: Seq<T>) -> Seq<(usize, usize, T)> {
        significant(
            compressed(
                curl_jacobian(material_of(self.reluctivity), self.cells, self.layout, state)
                    + self.conductivity_mass.entries(),
            ),
            reciprocal_spec(VALUE_RESOLUTION as nat),
        )
    }

    fn state_dimension(&self) -> (n: usize) {
        self.layout.reduced_dimension()
    }

    fn residual_dimension(&self) -> (n: usize) {
        self.layout.reduced_dimension()
    }

    fn residual_and_jacobian(&self, state: &[T]) -> (outcome: Result<
        ResidualEvaluation<T>,
        String,
    >) {
        match self.source_free_residual_and_jacobian(state) {
            Err(text) => Err(text),
            Ok(evaluation) => {
                let residual = minus(evaluation.residual.as_slice(), self.source.as_slice());
                proof {
                    assert(residual@ == self.residual_spec(state@));
                    assert(residual@.len() == self.residual_dim());
                    assert(evaluation.jacobian.cols() == self.state_dim());
                }
                Ok(ResidualEvaluation { residual, jacobian: evaluation.jacobian })
            },
        }
    }
}

/// The residual of the screened problem at the barycenters of chosen cells.
#[derive(Debug, Clone, PartialEq)]
pub struct LocalEddyCurrentResidualProbe3d<'a, T> {
    pub weak_model: &'a ReducedNonlinearScreenedEddyCurrent1Form<T>,
    pub selected_cells: Vec<usize>,
}

impl<'a, T: Scalar> LocalEddyCurrentResidualProbe3d<'a, T> {
    /// The model is in order, the chosen cells are there, and the residual can be numbered.
    pub open spec fn wf(&self) -> bool {
        &&& self.weak_model.wf()
        &&& selected_within(self.selected_cells@, self.weak_model.cells.elements@.len())
        &&& 3 * self.selected_cells@.len() <= usize::MAX
    }

    /// The probe of chosen cells, if these are there and none is chosen twice.
    pub fn from_model(
        model: &'a ReducedNonlinearScreenedEddyCurrent1Form<T>,
        selected_cells: Vec<usize>,
    ) -> (probe: Result<Self, String>)
        requires
            model.wf(),
            3 * selected_cells@.len() <= usize::MAX,
        ensures
            match selected_fault(
                "local eddy-current"@,
                selected_cells@,
                model.cells.elements@.len(),
            ) {
                Some(message) => probe matches Err(text) && text@ == message,
                None => probe matches Ok(p) && p.wf() && *p.weak_model == *model
                    && p.selected_cells == selected_cells,
            },
    {
        match check_selected(
            "local eddy-current",
            selected_cells.as_slice(),
            model.cells.elements.len(),
        ) {
            Err(text) => Err(text),
            Ok(_) => Ok(LocalEddyCurrentResidualProbe3d { weak_model: model, selected_cells }),
        }
    }

    pub fn selected_cells(&self) -> (cells: &[usize])
        ensures
            cells@ == self.selected_cells@,
    {
        self.selected_cells.as_slice()
    }

    pub fn cell_count(&self) -> (n: usize)
        ensures
            n == self.weak_model.cells.elements@.len(),
    {
        self.weak_model.cells.elements.len()
    }

    pub fn reduced_dimension(&self) -> (n: usize)
        ensures
            n == self.weak_model.layout.active_dofs@.len(),
    {
        self.weak_model.layout.reduced_dimension()
    }
}

impl<'a, T: Scalar> ResidualModel<T> for LocalEddyCurrentResidualProbe3d<'a, T> {
    open spec fn valid(&self) -> bool {
        self.wf()
    }

    open spec fn state_dim(&self) -> nat {
        self.weak_model.layout.active_dofs@.len()
    }

    open spec fn residual_dim(&self) -> nat {
        3 * self.selected_cells@.len()
    }

    open spec fn state_fault(&self, state: Seq<T>) -> Option<Seq<char>> {
        vector_fault(
            "local eddy-current probe"@,
            " state"@,
            state,
            self.weak_model.layout.active_dofs@.len(),
        )
    }

    open spec fn residual_spec(&self, state: Seq<T>) -> Seq<T> {
        probed_residual(
            self.weak_model.cells,
            self.selected_cells@,
            self.weak_model.layout,
            self.weak_model.state_mass_inverse.entries(),
            self.weak_model.residual_spec(state),
        )
    }

    open spec fn jacobian_spec(&self, state: Seq<T>) -> Seq<(usize, usize, T)> {
        probed_jacobian(
            self.weak_model.cells,
            self.selected_cells@,
            self.weak_model.layout,
            self.weak_model.state_mass_inverse.entries(),
            self.weak_model.jacobian_spec(state),
        )
    }

    fn state_dimension(&self) -> (n: usize) {
        self.weak_model.layout.reduced_dimension()
    }

    fn residual_dimension(&self) -> (n: usize) {
        3 * self.selected_cells.len()
    }

    fn residual_and_jacobian(&self, state: &[T]) -> (outcome: Result<
        ResidualEvaluation<T>,
        String,
    >) {
        match check_vector(
            "local eddy-current probe",
            " state",
            state,
            self.weak_model.layout.reduced_dimension(),
        ) {
            Err(text) => return Err(text),
            Ok(_) => {},
        }
        proof {
            assert(self.weak_model.state_fault(state@) is None);
            assert(self.state_dim() == self.weak_model.layout.active_dofs@.len());
            assert(self.residual_dim() == 3 * self.selected_cells@.len());
            assert(self.weak_model.state_dim() == self.weak_model.layout.active_dofs@.len());
            assert(self.weak_model.residual_dim() == self.weak_model.layout.active_dofs@.len());
        }
        match self.weak_model.residual_and_jacobian(state) {
            Err(text) => Err(text),
            Ok(weak) => {
                proof {
                    assert(weak.jacobian.entries() == self.weak_model.jacobian_spec(state@));
                    assert(self.jacobian_spec(state@) == probed_jacobian(
                        self.weak_model.cells,
                        self.selected_cells@,
                        self.weak_model.layout,
                        self.weak_model.state_mass_inverse.entries(),
                        self.weak_model.jacobian_spec(state@),
                    ));
                }
                probe_weak_residual(
                    &self.weak_model.cells,
                    self.selected_cells.as_slice(),
                    &self.weak_model.layout,
                    &self.weak_model.state_mass_inverse,
                    &weak,
                )
            },
        }
    }
}

/// Why there is no nonlinear screened problem.
pub open spec fn screened_fault<T: Scalar>(
    topology: &Complex,
    coords: MeshCoords<T>,
    forms: Seq<CellForms<T>>,
    config: NonlinearScreenedEddyCurrentAssemblyConfig<T>,
) -> Option<Seq<char>> {
    let nv = topology.simplices(0).len();
    let ne = topology.simplices(1).len();
    let free = (ne - config.boundary.state@.len()) as nat;
    let law = config.reluctivity.fault();
    let topology_dim = dimension_fault(
        "nonlinear screened eddy-current model requires topology dimension 3, got "@,
        topology.dimension() as nat,
        3,
    );
    let coords_dim = dimension_fault(
        "nonlinear screened eddy-current model requires coordinate dimension 3, got "@,
        coords.dim as nat,
        3,
    );
    let vertices = vertex_count_fault(coords.coords@.len(), nv);
    let layout = prescribed_dofs_fault("layout"@, ne, config.boundary.state@);
    let source = config_source_fault("nonlinear screened eddy-current"@, config.source, free);
    if law is Some {
        law
    } else if !positive(config.sigma) {
        Some("nonlinear screened eddy-current sigma must be finite and positive"@)
    } else if config.boundary.auxiliary@.len() != 0 {
        Some(auxiliary_message())
    } else if topology_dim is Some {
        topology_dim
    } else if coords_dim is Some {
        coords_dim
    } else if vertices is Some {
        vertices
    } else if layout is Some {
        layout
    } else if source is Some {
        source
    } else {
        tetrahedra_fault(
            "nonlinear screened eddy-current assembly"@,
            "nonlinear screened eddy-current model requires at least one tetrahedron"@,
            topology,
            forms,
        )
    }
}

/// The nonlinear screened problem made of a linear one.
pub open spec fn is_screened_model<T: Scalar>(
    model: ReducedNonlinearScreenedEddyCurrent1Form<T>,
    topology: &Complex,
    forms: Seq<CellForms<T>>,
    config: NonlinearScreenedEddyCurrentAssemblyConfig<T>,
    linear: ReducedEddyCurrent1FormSystem<T>,
) -> bool {
    &&& model.wf()
    &&& model.reluctivity == config.reluctivity
    &&& model.sigma == config.sigma
    &&& model.layout == linear.layout
    &&& model.source@ == config_source_values(config.source, model.layout.active_dofs@.len())
    &&& model.cells.is_of(topology, forms)
    &&& model.conductivity_mass == linear.conductivity_mass
    &&& model.conductivity_bias == linear.conductivity_fixed_bias
    &&& model.state_mass == linear.state_mass
    &&& model.state_mass_inverse == linear.state_mass_inverse
    &&& model.beta_zero_operator.entries() == significant(
        compressed(linear.curl_curl.entries() + linear.conductivity_mass.entries()),
        reciprocal_spec(VALUE_RESOLUTION as nat),
    )
    &&& model.beta_zero_bias@ == sum_of(
        linear.curl_curl_fixed_bias@,
        linear.conductivity_fixed_bias@,
    )
}

/// The nonlinear screened problem, with a linear one that it is made of: that with the
/// reluctivity at rest and the conductivity, each the same everywhere.
pub open spec fn has_screened_model<T: Scalar>(
    model: ReducedNonlinearScreenedEddyCurrent1Form<T>,
    topology: &Complex,
    forms: Seq<CellForms<T>>,
    cells: EddyCurrentCells<T>,
    rule: SimplexQuadRule<T>,
    config: NonlinearScreenedEddyCurrentAssemblyConfig<T>,
) -> bool {
    let n = cells.geometries@.len();
    exists|linear: ReducedEddyCurrent1FormSystem<T>|
        has_linear_system(
            linear,
            topology,
            cells,
            constant_cell_weights(rule, config.reluctivity.nu0, n),
            constant_cell_weights(rule, config.sigma, n),
            config.boundary,
        ) && #[trigger] is_screened_model(model, topology, forms, config, linear)
}

/// The nonlinear screened problem on its active edges. Weights are averaged by the rule.
pub fn build_reduced_nonlinear_screened_eddy_current_1form<T: Scalar>(
    topology: &Complex,
    coords: &MeshCoords<T>,
    forms: &[CellForms<T>],
    cells: &EddyCurrentCells<T>,
    rule: &SimplexQuadRule<T>,
    config: NonlinearScreenedEddyCurrentAssemblyConfig<T>,
) -> (model: Result<ReducedNonlinearScreenedEddyCurrent1Form<T>, String>)
    requires
        topology.wf(),
        rule.wf(),
        coords.dim == topology.dimension() ==> cells.wf(topology),
        topology.dimension() == 3 && coords.dim == 3 ==> cell_forms_match(topology, forms@),
    ensures
        match screened_fault(topology, *coords, forms@, config) {
            Some(message) => model matches Err(text) && text@ == message,
            None => model matches Ok(m) && has_screened_model(
                m,
                topology,
                forms@,
                *cells,
                *rule,
                config,
            ),
        },
{
    match config.reluctivity.validate() {
        Err(text) => return Err(text),
        Ok(_) => {},
    }
    if !config.sigma.is_finite() || config.sigma.is_at_most(T::zero()) {
        return Err(owned("nonlinear screened eddy-current sigma must be finite and positive"));
    }
    match ensure_no_auxiliary_regions(&config.boundary) {
        Err(text) => return Err(text),
        Ok(_) => {},
    }
    match check_dimension(
        "nonlinear screened eddy-current model requires topology dimension 3, got ",
        topology.dim(),
        3,
    ) {
        Err(text) => return Err(text),
        Ok(_) => {},
    }
    match check_dimension(
        "nonlinear screened eddy-current model requires coordinate dimension 3, got ",
        coords.dim(),
        3,
    ) {
        Err(text) => return Err(text),
        Ok(_) => {},
    }
    match check_vertex_count(coords.nvertices(), topology.nsimplices(0)) {
        Err(text) => return Err(text),
        Ok(_) => {},
    }
    let ncells: usize = cells.geometries.len();
    let inverse_permeability = constant_weights(rule, config.reluctivity.nu0, ncells);
    let conductivity = constant_weights(rule, config.sigma, ncells);
    let linear: ReducedEddyCurrent1FormSystem<T> = match build_reduced_eddy_current_1form_system(
        topology,
        coords.dim(),
        cells,
        &inverse_permeability,
        &conductivity,
        &config.boundary,
    ) {
        Err(text) => return Err(text),
        Ok(linear) => linear,
    };
    let source: Vec<T> = match config_source(
        "nonlinear screened eddy-current",
        config.source,
        linear.layout.reduced_dimension(),
    ) {
        Err(text) => return Err(text),
        Ok(source) => source,
    };
    let tetrahedra: Tetrahedra<T> = match tetrahedra(
        "nonlinear screened eddy-current assembly",
        "nonlinear screened eddy-current model requires at least one tetrahedron",
        topology,
        forms,
    ) {
        Err(text) => return Err(text),
        Ok(tetrahedra) => tetrahedra,
    };
    let beta_zero_operator: CsrMatrix<T> = match sparse_sum(
        &linear.curl_curl,
        &linear.conductivity_mass,
    ) {
        Err(text) => return Err(text),
        Ok(operator) => operator,
    };
    let beta_zero_bias = plus(
        linear.curl_curl_fixed_bias.as_slice(),
        linear.conductivity_fixed_bias.as_slice(),
    );
    let ghost whole = linear;
    let model = ReducedNonlinearScreenedEddyCurrent1Form {
        reluctivity: config.reluctivity,
        sigma: config.sigma,
        layout: linear.layout,
        source,
        cells: tetrahedra,
        conductivity_mass: linear.conductivity_mass,
        conductivity_bias: linear.conductivity_fixed_bias,
        state_mass: linear.state_mass,
        state_mass_inverse: linear.state_mass_inverse,
        beta_zero_operator,
        beta_zero_bias,
    };
    proof {
        assert(is_screened_model(model, topology, forms@, config, whole));
    }
    Ok(model)
}

} // verus!
