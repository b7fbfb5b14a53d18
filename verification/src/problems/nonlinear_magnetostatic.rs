//! The nonlinear magnetostatic problem in the plane: the unknown is the component of the
//! vector potential across the plane, a function on the vertices.

use crate::io::fields::MeshCoords;
use crate::linalg::algebra::{magnitude_spec, reciprocal_spec, VALUE_RESOLUTION};
use crate::linalg::algebra::{magnitude, reciprocal, zero_vector};
use crate::linalg::ring::exact_difference;
use crate::linalg::ring::commutative_ring;
use crate::linalg::scalar::Scalar;
use crate::linalg::vectors::difference_of;
use crate::linalg::vectors::minus;
use crate::problems::elimination::copy_of;
use crate::problems::flux_elements::{flux_jacobian, flux_residual, vector_fault, PointValues};
use crate::problems::flux_elements::{
    assemble_flux_jacobian, assemble_flux_residual, check_vector, FluxElement,
};
use crate::problems::layout::lifted;
use crate::problems::layout::lift_reduced_with_layout;
use crate::problems::reduced_linear::is_state_layout;
use crate::problems::reduced_linear::build_state_layout;
use crate::problems::reluctivity::material_values;
use crate::problems::reluctivity::{material_points, SpatialReluctivity};
use crate::problems::residual::is_evaluation;
use crate::problems::residual::{ResidualEvaluation, ResidualModel};
use crate::reduction::prescribed_dofs_fault;
use crate::reduction::{DofLayout, EssentialBoundarySpec};
use crate::problems::triangle_law::{
    measures_and_differentiates, triangle_measures_and_differentiates,
};
use crate::text::{decimal, first_fault, first_fault_ends, first_fault_step};
use crate::text::{owned, push_decimal};
use crate::topology::complex::Complex;
use vstd::prelude::*;
use vstd::string::*;

verus! {

/// A material, a source on the active dofs, and boundary conditions.
#[derive(Debug, Clone)]
pub struct NonlinearMagnetostaticAssemblyConfig<T, M> {
    pub material: M,
    pub source: Option<Vec<T>>,
    pub boundary: EssentialBoundarySpec<T>,
}

impl<T: Scalar, M: SpatialReluctivity<T>> NonlinearMagnetostaticAssemblyConfig<T, M> {
    pub fn new(material: M, boundary: EssentialBoundarySpec<T>) -> (config: Self)
        ensures
            config.material == material,
            config.source is None,
            config.boundary == boundary,
    {
        NonlinearMagnetostaticAssemblyConfig { material, source: None, boundary }
    }

    /// A configuration with a material that others may hold too.
    pub fn with_shared_material(material: M, boundary: EssentialBoundarySpec<T>) -> (config: Self)
        ensures
            config.material == material,
            config.source is None,
            config.boundary == boundary,
    {
        Self::new(material, boundary)
    }

    pub fn with_source(self, source: Vec<T>) -> (config: Self)
        ensures
            config.material == self.material,
            config.source == Some(source),
            config.boundary == self.boundary,
    {
        NonlinearMagnetostaticAssemblyConfig {
            material: self.material,
            source: Some(source),
            boundary: self.boundary,
        }
    }
}

/// The message for boundary conditions that a problem with one unknown cannot have.
pub open spec fn auxiliary_message() -> Seq<char> {
    "nonlinear magnetostatic assembly does not support auxiliary boundary regions"@
}

/// A triangle with the gradients of its shape functions.
#[derive(Debug)]
pub struct TriangleElement<T> {
    pub element: FluxElement<T>,
    pub barycenter: [T; 3],
}

/// A coordinate of a vertex of a triangle.
pub open spec fn corner<T: Scalar>(
    coords: MeshCoords<T>,
    vertices: Seq<usize>,
    i: int,
    axis: int,
) -> T {
    coords.coords@[vertices[i] as int]@[axis]
}

/// Twice the signed area of a triangle.
pub open spec fn twice_area<T: Scalar>(coords: MeshCoords<T>, v: Seq<usize>) -> T {
    corner(coords, v, 1, 0).minus_spec(corner(coords, v, 0, 0)).times_spec(
        corner(coords, v, 2, 1).minus_spec(corner(coords, v, 0, 1)),
    ).minus_spec(
        corner(coords, v, 2, 0).minus_spec(corner(coords, v, 0, 0)).times_spec(
            corner(coords, v, 1, 1).minus_spec(corner(coords, v, 0, 1)),
        ),
    )
}

/// The gradient of the shape function of corner `i`, where `j` and `k` follow it.
pub open spec fn shape_gradient<T: Scalar>(
    coords: MeshCoords<T>,
    v: Seq<usize>,
    j: int,
    k: int,
) -> Seq<T> {
    seq![
        corner(coords, v, j, 1).minus_spec(corner(coords, v, k, 1)).over_spec(
            twice_area(coords, v),
        ),
        corner(coords, v, k, 0).minus_spec(corner(coords, v, j, 0)).over_spec(
            twice_area(coords, v),
        ),
    ]
}

/// The mean of a coordinate over the corners.
pub open spec fn mean_corner<T: Scalar>(coords: MeshCoords<T>, v: Seq<usize>, axis: int) -> T {
    corner(coords, v, 0, axis).plus_spec(corner(coords, v, 1, axis)).plus_spec(
        corner(coords, v, 2, axis),
    ).over_spec(T::from_count_spec(3))
}

/// The triangle with the given corners.
pub open spec fn is_triangle<T: Scalar>(
    triangle: TriangleElement<T>,
    coords: MeshCoords<T>,
    v: Seq<usize>,
) -> bool {
    let shapes = triangle.element.shapes@;
    &&& triangle.element.dofs@ == v
    &&& triangle.element.measure == reciprocal_spec::<T>(2).times_spec(
        magnitude_spec(twice_area(coords, v)),
    )
    &&& shapes.len() == 3
    &&& shapes[0]@ == shape_gradient(coords, v, 1, 2)
    &&& shapes[1]@ == shape_gradient(coords, v, 2, 0)
    &&& shapes[2]@ == shape_gradient(coords, v, 0, 1)
    &&& triangle.barycenter@ == seq![
        mean_corner(coords, v, 0),
        mean_corner(coords, v, 1),
        T::zero_spec(),
    ]
}

/// What is wrong with a vertex of a triangle.
pub open spec fn vertex_fault(vertex: usize, nvertices: nat) -> Option<Seq<char>> {
    if vertex >= nvertices {
        Some(
            "triangle references vertex "@ + decimal(vertex as nat)
                + " outside coordinate vertex count "@ + decimal(nvertices),
        )
    } else {
        None
    }
}

/// What is wrong with a triangle.
pub open spec fn triangle_fault<T: Scalar>(coords: MeshCoords<T>, v: Seq<usize>) -> Option<
    Seq<char>,
> {
    let n = coords.coords@.len();
    let outside = first_fault(Seq::new(v.len(), |i: int| vertex_fault(v[i], n)));
    let area = twice_area(coords, v);
    if v.len() != 3 {
        Some("2D scalar A_z magnetostatic assembly expects triangular cells"@)
    } else if outside is Some {
        outside
    } else if !area.is_finite_spec() || magnitude_spec(area).is_at_most_spec(
        reciprocal_spec::<T>(VALUE_RESOLUTION as nat),
    ) {
        Some("2D scalar A_z magnetostatic assembly encountered a degenerate triangle"@)
    } else {
        None
    }
}

fn check_corners(vertices: &[usize], nvertices: usize) -> (checked: Result<(), String>)
    ensures
        match first_fault(
            Seq::new(vertices@.len(), |i: int| vertex_fault(vertices@[i], nvertices as nat)),
        ) {
            Some(message) => checked matches Err(text) && text@ == message,
            None => checked is Ok && forall|i: int|
                0 <= i < vertices@.len() ==> (#[trigger] vertices@[i]) < nvertices,
        },
{
    let ghost faults = Seq::new(
        vertices@.len(),
        |i: int| vertex_fault(vertices@[i], nvertices as nat),
    );
    let mut i: usize = 0;
    proof {
        first_fault_ends(faults);
    }
    while i < vertices.len()
        invariant
            i <= vertices@.len(),
            faults == Seq::new(
                vertices@.len(),
                |i: int| vertex_fault(vertices@[i], nvertices as nat),
            ),
            first_fault(faults.take(i as int)) is None,
            forall|j: int| 0 <= j < i ==> (#[trigger] vertices@[j]) < nvertices,
        decreases vertices@.len() - i,
    {
        let vertex: usize = vertices[i];
        proof {
            first_fault_step(faults, i as int);
        }
        if vertex >= nvertices {
            let mut text = owned("triangle references vertex ");
            push_decimal(&mut text, vertex);
            text.append(" outside coordinate vertex count ");
            push_decimal(&mut text, nvertices);
            return Err(text);
        }
        i = i + 1;
    }
    proof {
        first_fault_ends(faults);
    }
    Ok(())
}

impl<T: Scalar> TriangleElement<T> {
    /// The triangle with the given corners, if it is not degenerate.
    pub fn from_cell_vertices(vertices: &[usize], coords: &MeshCoords<T>) -> (triangle: Result<
        Self,
        String,
    >)
        requires
            coords.wf(),
            coords.dim >= 2,
        ensures
            match triangle_fault(*coords, vertices@) {
                Some(message) => triangle matches Err(text) && text@ == message,
                None => triangle matches Ok(t) && is_triangle(t, *coords, vertices@)
                    && t.element.wf(coords.coords@.len() as int, 2) && (commutative_ring::<T>()
                    ==> measures_and_differentiates(t, *coords, vertices@)),
            },
    {
        if vertices.len() != 3 {
            return Err(owned("2D scalar A_z magnetostatic assembly expects triangular cells"));
        }
        match check_corners(vertices, coords.nvertices()) {
            Err(text) => return Err(text),
            Ok(_) => {},
        }
        proof {
            assert(vertices@[0] < coords.coords@.len());
            assert(vertices@[1] < coords.coords@.len());
            assert(vertices@[2] < coords.coords@.len());
        }
        let x0 = coords.coords[vertices[0]][0];
        let y0 = coords.coords[vertices[0]][1];
        let x1 = coords.coords[vertices[1]][0];
        let y1 = coords.coords[vertices[1]][1];
        let x2 = coords.coords[vertices[2]][0];
        let y2 = coords.coords[vertices[2]][1];
        let twice = x1.minus(x0).times(y2.minus(y0)).minus(x2.minus(x0).times(y1.minus(y0)));
        if !twice.is_finite() || magnitude(twice).is_at_most(reciprocal(VALUE_RESOLUTION)) {
            return Err(
                owned("2D scalar A_z magnetostatic assembly encountered a degenerate triangle"),
            );
        }
        let measure = reciprocal::<T>(2).times(magnitude(twice));
        let mut first: Vec<T> = Vec::new();
        first.push(y1.minus(y2).over(twice));
        first.push(x2.minus(x1).over(twice));
        let mut second: Vec<T> = Vec::new();
        second.push(y2.minus(y0).over(twice));
        second.push(x0.minus(x2).over(twice));
        let mut third: Vec<T> = Vec::new();
        third.push(y0.minus(y1).over(twice));
        third.push(x1.minus(x0).over(twice));
        let three = T::from_count(3);
        let barycenter = [
            x0.plus(x1).plus(x2).over(three),
            y0.plus(y1).plus(y2).over(three),
            T::zero(),
        ];
        proof {
            assert(first@ =~= shape_gradient(*coords, vertices@, 1, 2));
            assert(second@ =~= shape_gradient(*coords, vertices@, 2, 0));
            assert(third@ =~= shape_gradient(*coords, vertices@, 0, 1));
            assert(barycenter@ =~= seq![
                mean_corner(*coords, vertices@, 0),
                mean_corner(*coords, vertices@, 1),
                T::zero_spec(),
            ]);
        }
        let mut shapes: Vec<Vec<T>> = Vec::new();
        shapes.push(first);
        shapes.push(second);
        shapes.push(third);
        let triangle = TriangleElement {
            element: FluxElement { dofs: copy_of(vertices), measure, shapes },
            barycenter,
        };
        proof {
            if commutative_ring::<T>() {
                triangle_measures_and_differentiates(triangle, *coords, vertices@);
            }
        }
        Ok(triangle)
    }
}

/// The magnetostatic problem in the plane on its active vertices.
#[derive(Debug, Clone)]
pub struct ReducedScalarAzMagnetostatic2d<T, M> {
    pub material: M,
    pub layout: DofLayout<T>,
    pub source: Vec<T>,
    pub elements: Vec<FluxElement<T>>,
    pub barycenters: Vec<[T; 3]>,
}

impl<T: Scalar, M: SpatialReluctivity<T>> ReducedScalarAzMagnetostatic2d<T, M> {
    /// The fluxes of a state with the reluctivity on each element.
    pub open spec fn points(&self, state: Seq<T>) -> Seq<PointValues<T>> {
        material_values(
            self.material,
            self.elements@,
            self.barycenters@,
            lifted(
                self.layout.full_dimension as nat,
                self.layout.active_dofs@,
                self.layout.prescribed_dofs@,
                state,
            ),
            2,
        )
    }

    /// The residual without the source.
    pub open spec fn source_free_spec(&self, state: Seq<T>) -> Seq<T> {
        flux_residual(self.elements@, self.points(state), self.layout.active_dofs@)
    }

    /// Elements, layout and source belong together.
    pub open spec fn wf(&self) -> bool {
        &&& self.layout.wf()
        &&& self.source@.len() == self.layout.active_dofs@.len()
        &&& self.barycenters@.len() == self.elements@.len()
        &&& forall|e: int|
            0 <= e < self.elements@.len() ==> (#[trigger] self.elements@[e]).wf(
                self.layout.full_dimension as int,
                2,
            )
    }

    pub fn reduced_dimension(&self) -> (n: usize)
        ensures
            n == self.layout.active_dofs@.len(),
    {
        self.layout.reduced_dimension()
    }

    pub fn layout(&self) -> (layout: &DofLayout<T>)
        ensures
            *layout == self.layout,
    {
        &self.layout
    }

    pub fn material(&self) -> (material: &M)
        ensures
            *material == self.material,
    {
        &self.material
    }

    pub fn source(&self) -> (source: &[T])
        ensures
            source@ == self.source@,
    {
        self.source.as_slice()
    }

    pub fn num_elements(&self) -> (n: usize)
        ensures
            n == self.elements@.len(),
    {
        self.elements.len()
    }

    /// The problem with another source, if this has a finite value for each active dof.
    pub fn with_source(self, source: Vec<T>) -> (model: Result<Self, String>)
        requires
            self.wf(),
        ensures
            match vector_fault(
                "magnetostatic"@,
                " reduced source"@,
                source@,
                self.layout.active_dofs@.len(),
            ) {
                Some(message) => model matches Err(text) && text@ == message,
                None => model matches Ok(m) && m.wf() && m.source == source && m.material
                    == self.material && m.layout == self.layout && m.elements == self.elements
                    && m.barycenters == self.barycenters,
            },
    {
        match check_vector(
            "magnetostatic",
            " reduced source",
            source.as_slice(),
            self.layout.reduced_dimension(),
        ) {
            Err(text) => return Err(text),
            Ok(_) => {},
        }
        Ok(
            ReducedScalarAzMagnetostatic2d {
                material: self.material,
                layout: self.layout,
                source,
                elements: self.elements,
                barycenters: self.barycenters,
            },
        )
    }

    /// The residual without the source and its Jacobian.
    pub fn source_free_residual_and_jacobian(&self, reduced_state: &[T]) -> (outcome: Result<
        ResidualEvaluation<T>,
        String,
    >)
        requires
            self.wf(),
        ensures
            match self.state_fault(reduced_state@) {
                Some(message) => outcome matches Err(text) && text@ == message,
                None => outcome matches Ok(e) && is_evaluation(
                    e,
                    self.source_free_spec(reduced_state@),
                    self.jacobian_spec(reduced_state@),
                    self.layout.active_dofs@.len(),
                    self.layout.active_dofs@.len(),
                ),
            },
    {
        let n: usize = self.layout.reduced_dimension();
        match check_vector("magnetostatic", " state", reduced_state, n) {
            Err(text) => return Err(text),
            Ok(_) => {},
        }
        let full: Vec<T> = match lift_reduced_with_layout(&self.layout, reduced_state) {
            Err(text) => return Err(text),
            Ok(full) => full,
        };
        let points = material_points(
            &self.material,
            self.elements.as_slice(),
            self.barycenters.as_slice(),
            full.as_slice(),
            2,
        );
        let residual = assemble_flux_residual(
            self.elements.as_slice(),
            points.as_slice(),
            &self.layout,
            2,
        );
        let jacobian = assemble_flux_jacobian(
            self.elements.as_slice(),
            points.as_slice(),
            &self.layout,
            2,
        );
        Ok(ResidualEvaluation { residual, jacobian })
    }

    /// The source for which a state solves the problem.
    pub fn manufactured_source(&self, reduced_state: &[T]) -> (source: Result<Vec<T>, String>)
        requires
            self.wf(),
        ensures
            match self.state_fault(reduced_state@) {
                Some(message) => source matches Err(text) && text@ == message,
                None => source matches Ok(s) && s@ == self.source_free_spec(reduced_state@),
            },
    {
        match self.source_free_residual_and_jacobian(reduced_state) {
            Err(text) => Err(text),
            Ok(evaluation) => Ok(evaluation.residual),
        }
    }

    /// The values on all vertices.
    pub fn lift_reduced_state(&self, reduced_state: &[T]) -> (full: Result<Vec<T>, String>)
        requires
            self.wf(),
        ensures
            full is Ok <==> reduced_state@.len() == self.layout.active_dofs@.len(),
            match full {
                Ok(full) => full@ == lifted(
                    self.layout.full_dimension as nat,
                    self.layout.active_dofs@,
                    self.layout.prescribed_dofs@,
                    reduced_state@,
                ),
                Err(e) => e@ == "reduced vector length "@ + decimal(reduced_state@.len())
                    + " does not match layout active dimension "@ + decimal(
                    self.layout.active_dofs@.len(),
                ),
            },
    {
        lift_reduced_with_layout(&self.layout, reduced_state)
    }

    /// The source only shifts the residual: the derivative is that of the problem with any other
    /// source, and the residual is what the state leaves without a source, less the source.
    pub proof fn source_only_shifts(&self, other: Self, state: Seq<T>)
        requires
            other == (Self { source: other.source, ..*self }),
        ensures
            self.jacobian_spec(state) == other.jacobian_spec(state),
            self.residual_spec(state) == difference_of(self.source_free_spec(state), self.source@),
            other.residual_spec(state) == difference_of(
                self.source_free_spec(state),
                other.source@,
            ),
    {
    }

    /// With the source that is manufactured for a state, the residual of the state vanishes, and
    /// the derivative is that of the problem without or with another source. This holds for
    /// coefficients with exact differences.
    pub proof fn manufactured_source_solves(&self, other: Self, state: Seq<T>)
        requires
            exact_difference::<T>(),
            other == (Self { source: other.source, ..*self }),
            self.source@ == self.source_free_spec(state),
        ensures
            self.residual_spec(state) == Seq::new(
                self.layout.active_dofs@.len(),
                |i: int| T::zero_spec(),
            ),
            self.jacobian_spec(state) == other.jacobian_spec(state),
    {
        let r = self.source_free_spec(state);
        assert forall|i: int| 0 <= i < r.len() implies self.residual_spec(state)[i]
            == T::zero_spec() by {
            assert(r[i].minus_spec(r[i]) == T::zero_spec());
        }
        assert(self.residual_spec(state) =~= Seq::new(
            self.layout.active_dofs@.len(),
            |i: int| T::zero_spec(),
        ));
    }
}

impl<T: Scalar, M: SpatialReluctivity<T>> ResidualModel<T> for ReducedScalarAzMagnetostatic2d<
    T,
    M,
> {
    open spec fn valid(&self) -> bool {
        self.wf()
    }

    open spec fn state_dim(&self) -> nat {
        self.layout.active_dofs@.len()
    }

    open spec fn residual_dim(&self) -> nat {
        self.layout.active_dofs@.len()
    }

    open spec fn state_fault(&self, state: Seq<T>) -> Option<Seq<char>> {
        vector_fault("magnetostatic"@, " state"@, state, self.layout.active_dofs@.len())
    }

    open spec fn residual_spec(&self, state: Seq<T>) -> Seq<T> {
        difference_of(self.source_free_spec(state), self.source@)
    }

    open spec fn jacobian_spec(&self, state: Seq<T>) -> Seq<(usize, usize, T)> {
        flux_jacobian(self.elements@, self.points(state), self.layout.active_dofs@)
    }

    fn state_dimension(&self) -> (n: usize) {
        self.layout.reduced_dimension()
    }

    fn residual_dimension(&self) -> (n: usize) {
        self.layout.reduced_dimension()
    }

    fn residual_and_jacobian(&self, state: &[T]) -> (outcome: Result<
        ResidualEvaluation<T>,
        String,
    >) {
        match self.source_free_residual_and_jacobian(state) {
            Err(text) => Err(text),
            Ok(evaluation) => {
                let residual = minus(evaluation.residual.as_slice(), self.source.as_slice());
                proof {
                    assert(residual@ == self.residual_spec(state@));
                    assert(residual@.len() == self.residual_dim());
                    assert(evaluation.jacobian.cols() == self.state_dim());
                }
                Ok(ResidualEvaluation { residual, jacobian: evaluation.jacobian })
            },
        }
    }
}

/// What is wrong with the source of a configuration.
pub open spec fn config_source_fault<T: Scalar>(
    name: Seq<char>,
    source: Option<Vec<T>>,
    dimension: nat,
) -> Option<Seq<char>> {
    match source {
        Some(values) => vector_fault(name, " reduced source"@, values@, dimension),
        None => None,
    }
}

/// The source of a configuration, zero where none is given.
pub open spec fn config_source_values<T: Scalar>(source: Option<Vec<T>>, dimension: nat) -> Seq<T> {
    match source {
        Some(values) => values@,
        None => Seq::new(dimension, |i: int| T::zero_spec()),
    }
}

/// The source of a configuration, zero where none is given.
pub fn config_source<T: Scalar>(name: &str, source: Option<Vec<T>>, dimension: usize) -> (values:
    Result<Vec<T>, String>)
    ensures
        match config_source_fault(name@, source, dimension as nat) {
            Some(message) => values matches Err(text) && text@ == message,
            None => values matches Ok(v) && v@ == config_source_values(source, dimension as nat)
                && v@.len() == dimension,
        },
{
    match source {
        None => Ok(zero_vector(dimension)),
        Some(values) => {
            match check_vector(name, " reduced source", values.as_slice(), dimension) {
                Err(text) => Err(text),
                Ok(_) => Ok(values),
            }
        },
    }
}

/// The message for coordinates of another number of vertices.
pub open spec fn vertex_count_fault(ncoords: nat, nvertices: nat) -> Option<Seq<char>> {
    if ncoords != nvertices {
        Some(
            "coordinate vertex count "@ + decimal(ncoords)
                + " must match topology vertex count "@ + decimal(nvertices),
        )
    } else {
        None
    }
}

/// Fails unless there are coordinates for each vertex.
pub fn check_vertex_count(ncoords: usize, nvertices: usize) -> (checked: Result<(), String>)
    ensures
        match vertex_count_fault(ncoords as nat, nvertices as nat) {
            Some(message) => checked matches Err(text) && text@ == message,
            None => checked is Ok,
        },
{
    if ncoords != nvertices {
        let mut text = owned("coordinate vertex count ");
        push_decimal(&mut text, ncoords);
        text.append(" must match topology vertex count ");
        push_decimal(&mut text, nvertices);
        return Err(text);
    }
    Ok(())
}

/// A dimension that is not the one a problem has to have.
pub open spec fn dimension_fault(prefix: Seq<char>, dim: nat, expected: nat) -> Option<Seq<char>> {
    if dim != expected {
        Some(prefix + decimal(dim))
    } else {
        None
    }
}

/// Fails unless a dimension is the one a problem has to have.
pub fn check_dimension(prefix: &str, dim: usize, expected: usize) -> (checked: Result<(), String>)
    ensures
        match dimension_fault(prefix@, dim as nat, expected as nat) {
            Some(message) => checked matches Err(text) && text@ == message,
            None => checked is Ok,
        },
{
    if dim != expected {
        let mut text = owned(prefix);
        push_decimal(&mut text, dim);
        return Err(text);
    }
    Ok(())
}

/// What is wrong with the cells of a mesh in the plane.
pub open spec fn triangles_fault<T: Scalar>(topology: &Complex, coords: MeshCoords<T>) -> Option<
    Seq<char>,
> {
    let cells = topology.simplices(2);
    let faulty = first_fault(Seq::new(cells.len(), |i: int| triangle_fault(coords, cells[i])));
    if faulty is Some {
        faulty
    } else if cells.len() == 0 {
        Some("2D scalar A_z magnetostatic reduction requires at least one triangle"@)
    } else {
        None
    }
}

/// Why there is no magnetostatic problem in the plane.
pub open spec fn scalar_model_fault<T: Scalar, M: SpatialReluctivity<T>>(
    topology: &Complex,
    coords: MeshCoords<T>,
    config: NonlinearMagnetostaticAssemblyConfig<T, M>,
) -> Option<Seq<char>> {
    let nv = topology.simplices(0).len();
    let free = (nv - config.boundary.state@.len()) as nat;
    let material = config.material.fault();
    let topology_dim = dimension_fault(
        "2D scalar A_z magnetostatic reduction requires topology dimension 2, got "@,
        topology.dimension() as nat,
        2,
    );
    let coords_dim = dimension_fault(
        "2D scalar A_z magnetostatic reduction requires coordinate dimension 2, got "@,
        coords.dim as nat,
        2,
    );
    let vertices = vertex_count_fault(coords.coords@.len(), nv);
    let layout = prescribed_dofs_fault("layout"@, nv, config.boundary.state@);
    let source = config_source_fault("magnetostatic"@, config.source, free);
    if material is Some {
        material
    } else if config.boundary.auxiliary@.len() != 0 {
        Some(auxiliary_message())
    } else if topology_dim is Some {
        topology_dim
    } else if coords_dim is Some {
        coords_dim
    } else if vertices is Some {
        vertices
    } else if layout is Some {
        layout
    } else if source is Some {
        source
    } else {
        triangles_fault(topology, coords)
    }
}

/// The triangles of a mesh.
pub open spec fn is_triangle_list<T: Scalar>(
    elements: Seq<FluxElement<T>>,
    barycenters: Seq<[T; 3]>,
    coords: MeshCoords<T>,
    cells: Seq<Seq<usize>>,
) -> bool {
    &&& elements.len() == cells.len()
    &&& barycenters.len() == cells.len()
    &&& forall|i: int|
        0 <= i < cells.len() ==> is_triangle(
            (TriangleElement { element: #[trigger] elements[i], barycenter: barycenters[i] }),
            coords,
            cells[i],
        )
}

fn triangles<T: Scalar>(topology: &Complex, coords: &MeshCoords<T>) -> (outcome: Result<
    (Vec<FluxElement<T>>, Vec<[T; 3]>),
    String,
>)
    requires
        topology.wf(),
        topology.dimension() == 2,
        coords.wf(),
        coords.dim == 2,
    ensures
        match triangles_fault(topology, *coords) {
            Some(message) => outcome matches Err(text) && text@ == message,
            None => outcome matches Ok(list) && is_triangle_list(
                list.0@,
                list.1@,
                *coords,
                topology.simplices(2),
            ) && forall|e: int|
                0 <= e < list.0@.len() ==> (#[trigger] list.0@[e]).wf(
                    coords.coords@.len() as int,
                    2,
                ),
        },
{
    let ghost cells = topology.simplices(2);
    let ghost faults = Seq::new(cells.len(), |i: int| triangle_fault(*coords, cells[i]));
    let n: usize = topology.nsimplices(2);
    let mut elements: Vec<FluxElement<T>> = Vec::new();
    let mut barycenters: Vec<[T; 3]> = Vec::new();
    let mut i: usize = 0;
    proof {
        first_fault_ends(faults);
    }
    while i < n
        invariant
            i <= n,
            n == cells.len(),
            cells == topology.simplices(2),
            faults == Seq::new(cells.len(), |j: int| triangle_fault(*coords, cells[j])),
            topology.wf(),
            topology.dimension() == 2,
            coords.wf(),
            coords.dim == 2,
            first_fault(faults.take(i as int)) is None,
            is_triangle_list(elements@, barycenters@, *coords, cells.take(i as int)),
            forall|e: int|
                0 <= e < elements@.len() ==> (#[trigger] elements@[e]).wf(
                    coords.coords@.len() as int,
                    2,
                ),
        decreases n - i,
    {
        let cell = topology.simplex_at(2, i);
        proof {
            first_fault_step(faults, i as int);
        }
        match TriangleElement::from_cell_vertices(cell.vertices.as_slice(), coords) {
            Err(text) => return Err(text),
            Ok(triangle) => {
                let ghost before = elements@;
                let ghost centers = barycenters@;
                elements.push(triangle.element);
                barycenters.push(triangle.barycenter);
                proof {
                    assert forall|j: int| 0 <= j < i + 1 implies is_triangle(
                        (TriangleElement {
                            element: #[trigger] elements@[j],
                            barycenter: barycenters@[j],
                        }),
                        *coords,
                        cells.take(i + 1)[j],
                    ) by {
                        if j < i {
                            assert(elements@[j] == before[j]);
                            assert(barycenters@[j] == centers[j]);
                            assert(cells.take(i + 1)[j] == cells.take(i as int)[j]);
                        }
                    }
                }
            },
        }
        i = i + 1;
    }
    proof {
        first_fault_ends(faults);
        assert(cells.take(i as int) =~= cells);
    }
    if n == 0 {
        return Err(
            owned("2D scalar A_z magnetostatic reduction requires at least one triangle"),
        );
    }
    Ok((elements, barycenters))
}

/// The magnetostatic problem in the plane on its active vertices.
pub fn build_reduced_scalar_az_magnetostatic_2d<T: Scalar, M: SpatialReluctivity<T>>(
    topology: &Complex,
    coords: &MeshCoords<T>,
    config: NonlinearMagnetostaticAssemblyConfig<T, M>,
) -> (model: Result<ReducedScalarAzMagnetostatic2d<T, M>, String>)
    requires
        topology.wf(),
        coords.wf(),
    ensures
        match scalar_model_fault(topology, *coords, config) {
            Some(message) => model matches Err(text) && text@ == message,
            None => model matches Ok(m) && {
                &&& m.wf()
                &&& m.material == config.material
                &&& is_state_layout(
                    m.layout,
                    topology.simplices(0).len(),
                    config.boundary.state@,
                )
                &&& m.source@ == config_source_values(config.source, m.layout.active_dofs@.len())
                &&& is_triangle_list(
                    m.elements@,
                    m.barycenters@,
                    *coords,
                    topology.simplices(2),
                )
            },
        },
{
    match config.material.validate() {
        Err(text) => return Err(text),
        Ok(_) => {},
    }
    if config.boundary.auxiliary.len() != 0 {
        return Err(
            owned("nonlinear magnetostatic assembly does not support auxiliary boundary regions"),
        );
    }
    match check_dimension(
        "2D scalar A_z magnetostatic reduction requires topology dimension 2, got ",
        topology.dim(),
        2,
    ) {
        Err(text) => return Err(text),
        Ok(_) => {},
    }
    match check_dimension(
        "2D scalar A_z magnetostatic reduction requires coordinate dimension 2, got ",
        coords.dim(),
        2,
    ) {
        Err(text) => return Err(text),
        Ok(_) => {},
    }
    match check_vertex_count(coords.nvertices(), topology.nsimplices(0)) {
        Err(text) => return Err(text),
        Ok(_) => {},
    }
    let layout: DofLayout<T> = match build_state_layout(
        topology.nsimplices(0),
        config.boundary.state.as_slice(),
    ) {
        Err(text) => return Err(text),
        Ok(layout) => layout,
    };
    let source: Vec<T> = match config_source(
        "magnetostatic",
        config.source,
        layout.reduced_dimension(),
    ) {
        Err(text) => return Err(text),
        Ok(source) => source,
    };
    let (elements, barycenters): (Vec<FluxElement<T>>, Vec<[T; 3]>) = match triangles(
        topology,
        coords,
    ) {
        Err(text) => return Err(text),
        Ok(list) => list,
    };
    Ok(
        ReducedScalarAzMagnetostatic2d {
            material: config.material,
            layout,
            source,
            elements,
            barycenters,
        },
    )
}

} // verus!
