#![allow(dead_code)]

use formoniq::io::fields::MeshCoords;
use formoniq::linalg::dense::DenseMatrix;
use formoniq::linalg::scalar::Scalar;
use formoniq::linalg::sparse::CooMatrix;
use formoniq::operators::elements::SimplexGeometry;
use formoniq::operators::weights::SimplexQuadRule;
use formoniq::topology::complex::Complex;
use formoniq::topology::simplex::Simplex;
use formoniq::topology::skeleton::Skeleton;
use formoniq::problems::elimination::{with_prescribed, MixedSystem};
use formoniq::assemble::barycentric_dual::{
    barycentric_dual_sparse_inverse_local_block, BarycentricDualSparseInverseConfig,
};
use formoniq::assemble::barycentric_inverse::assemble_barycentric_dual_1form_sparse_inverse_galmat;
use formoniq::assemble::boundary_terms::boundary_simplices_where_barycenter;
use formoniq::assemble::elements::{
    assemble_nc_lumped_mass_galmat, assemble_nc_lumped_mass_galmat_weighted, elmats_of, elvecs_of,
    weighted_elmats_of,
};
use formoniq::assemble::galerkin::{assemble_galmat, assemble_galvec};
use formoniq::assemble::nonconforming::{
    assemble_nc_lumped_mass_inverse_from_blocks,
    assemble_whitney_projected_sparse_inverse_from_blocks, nc_lumped_mass_blocks,
};
use formoniq::exterior::precompose_form;
use formoniq::exterior::ExteriorElement;
use formoniq::io::fields::Cochain;
use formoniq::linalg::csr::CsrMatrix;
use formoniq::operators::elements::{HodgeMassElmat, LaplaceBeltramiElmat, ScalarMassElmat};
use formoniq::operators::source::SourceElVec;
use formoniq::linalg::petsc::{GhiepReducedSolve, GhiepWhich};
use formoniq::operators::weights::{constant_weights as averaged_constants, ScalarWeight};
use formoniq::problems::eddy_current::{
    assemble_reduced_eddy_current_1form_source,
    assemble_reduced_screened_eddy_current_sinusoidal_source,
    build_reduced_eddy_current_1form_system, build_reduced_nonlinear_screened_eddy_current_1form,
    screened_eddy_current_sinusoidal_source, screened_eddy_current_sinusoidal_source_value,
    validate_source_amplitude, EddyCurrentCells,
    LocalEddyCurrentResidualProbe3d, NonlinearScreenedEddyCurrentAssemblyConfig,
    ReducedNonlinearScreenedEddyCurrent1Form, SampledField, SourceCells,
};
use formoniq::problems::heat::{check_initial_data, heat_step, heat_times, source_vector_at};
use formoniq::problems::hodge_evp::{
    solve_hodge_laplace_evp_largest_with_galmats, solve_hodge_laplace_evp_with_galmats,
    solve_hodge_laplace_evp_with_galmats_config, EvpPlan,
    harmonics_of, solve_hodge_laplace_harmonics_with_galmats, split_eigenvectors,
};
use formoniq::problems::hodge_laplace::{
    solve_hodge_laplace_source_with_galmats_and_boundary_conditions, source_solution,
    StrongConditions,
};
use formoniq::problems::hodge_operators::{assemble_reduced_hodge_operators, HodgeElmats};
use formoniq::problems::hodge_transient::{
    check_initial_u, consistent_sigma_from_u, initial_sigma_from_state,
    solve_hodge_laplace_transient_step, transient_state, MixedTransientConfig,
    MixedTransientState,
};
use formoniq::problems::laplace_beltrami::{solve_laplace_beltrami_source, LaplaceBeltramiGalmats};
use formoniq::problems::layout::{
    hard_dirichlet_bias, lift_reduced_with_layout, reduce_square_with_layout,
    reduce_vector_with_layout,
};
use formoniq::problems::mixed_galmats::MixedGalmats;
use formoniq::problems::nonlinear_magnetostatic::{
    build_reduced_scalar_az_magnetostatic_2d, NonlinearMagnetostaticAssemblyConfig,
    ReducedScalarAzMagnetostatic2d,
};
use formoniq::problems::reduced_linear::{
    assemble_mass_inverse, build_reduced_hodge_laplace_1form_system,
    build_reduced_laplace_beltrami_system, build_reduced_weighted_hodge_laplace_1form_system,
    MassInverseApproximation, ReducedLinearPdeAssembly,
};
use formoniq::problems::reluctivity::{
    NonlinearEddyCurrentReluctivityLaw, NonlinearReluctivityLaw, SpatialReluctivity,
};
use formoniq::problems::residual::{ResidualEvaluation, ResidualModel};
use formoniq::problems::tetrahedra::{cell_forms, CellForms, CellGeometry};
use formoniq::problems::transient::{validate_time_grid, ThetaMethod};
use formoniq::problems::vector_potential::{
    build_reduced_vector_potential_magnetostatic_3d, LinearHodgeCells, LocalMagneticStrongProbe3d,
    ReducedVectorPotentialMagnetostatic3d,
};
use formoniq::problems::weighted_evp::{
    solve_weighted_hodge_laplace_evp, solve_weighted_hodge_laplace_evp_largest,
    solve_weighted_hodge_laplace_evp_with_boundary_conditions,
    solve_weighted_hodge_laplace_evp_with_boundary_conditions_largest,
    solve_weighted_hodge_laplace_harmonics,
};
use formoniq::problems::weighted_galmats::{
    solve_laplace_beltrami_evp_weighted, solve_laplace_beltrami_source_weighted,
};
use formoniq::reduction::{DofLayout, EssentialBoundarySpec, PrescribedDof};
use formoniq::sparse_inverse_hodge_validation::{
    assemble_reduced_barycentric_dual_operator, boundary_dofs, kappa, row_sum_lumped_inverse,
    scale_sparse,
};
use formoniq::whitney::{DifWhitneyForm, WhitneyForm};
use std::f64::consts::PI;

type Mat = nalgebra::DMatrix<f64>;

/// Machine reals as coefficients.
#[derive(Clone, Copy, Debug, PartialEq, PartialOrd)]
struct Real(f64);

impl Scalar for Real {
    fn zero() -> Self {
        Real(0.0)
    }
    fn one() -> Self {
        Real(1.0)
    }
    fn plus(self, other: Self) -> Self {
        Real(self.0 + other.0)
    }
    fn minus(self, other: Self) -> Self {
        Real(self.0 - other.0)
    }
    fn times(self, other: Self) -> Self {
        Real(self.0 * other.0)
    }
    fn negated(self) -> Self {
        Real(-self.0)
    }
    fn over(self, other: Self) -> Self {
        Real(self.0 / other.0)
    }
    fn is_zero(self) -> bool {
        self.0 == 0.0
    }
    fn is_finite(self) -> bool {
        self.0.is_finite()
    }
    fn is_below(self, other: Self) -> bool {
        self.0 < other.0
    }
    fn is_at_most(self, other: Self) -> bool {
        self.0 <= other.0
    }
    fn from_count(n: u64) -> Self {
        Real(n as f64)
    }
    fn from_word(word: u64) -> Self {
        Real(f64::from_bits(word))
    }
    fn infinity() -> Self {
        Real(f64::INFINITY)
    }
    fn square_root(self) -> Self {
        Real(self.0.sqrt())
    }
    fn hypot(self, other: Self) -> Self {
        Real(self.0.hypot(other.0))
    }
    fn logarithm(self) -> Self {
        Real(self.0.ln())
    }
    fn display(self) -> String {
        format!("{}", self.0)
    }
    fn fixed(self, digits: usize) -> String {
        format!("{:.*}", digits, self.0)
    }
    fn parsed(text: &str) -> Option<Self> {
        text.parse::<f64>().ok().map(Real)
    }
    fn scientific(self, digits: usize) -> String {
        format!("{:.*e}", digits, self.0)
    }
}

fn reals(values: &[f64]) -> Vec<Real> {
    values.iter().map(|&v| Real(v)).collect()
}

fn floats(values: &[Real]) -> Vec<f64> {
    values.iter().map(|v| v.0).collect()
}

fn dense(m: &DenseMatrix<Real>) -> Mat {
    Mat::from_fn(m.nrows(), m.ncols(), |i, j| m.get(i, j).0)
}

fn from_dense(m: &Mat) -> DenseMatrix<Real> {
    let values = (0..m.nrows())
        .flat_map(|i| (0..m.ncols()).map(move |j| (i, j)))
        .map(|(i, j)| Real(m[(i, j)]))
        .collect();
    DenseMatrix::from_rows(m.nrows(), m.ncols(), values)
}

fn coo(m: &CooMatrix<Real>) -> Mat {
    let mut dense = Mat::zeros(m.nrows(), m.ncols());
    for &(r, c, v) in m.triplets() {
        dense[(r, c)] += v.0;
    }
    dense
}

fn close(a: f64, b: f64, epsilon: f64, max_relative: f64) -> bool {
    let gap = (a - b).abs();
    a == b || gap <= epsilon || gap <= max_relative * a.abs().max(b.abs())
}

fn assert_close(a: &Mat, b: &Mat, tolerance: f64) {
    assert_eq!(a.shape(), b.shape());
    for (x, y) in a.iter().zip(b.iter()) {
        assert!(close(*x, *y, tolerance, tolerance), "{x} against {y}");
    }
}

/// Permutations of the axes.
fn permutations(n: usize) -> Vec<Vec<usize>> {
    if n == 0 {
        return vec![vec![]];
    }
    let mut all = Vec::new();
    for rest in permutations(n - 1) {
        for at in 0..n {
            let mut p = rest.clone();
            p.insert(at, n - 1);
            all.push(p);
        }
    }
    all
}

/// The unit cube divided into boxes, each box into simplices along the paths of its edges.
fn cartesian(dim: usize, n: usize) -> (Complex, MeshCoords<Real>) {
    let side = n + 1;
    let index = |at: &[usize]| at.iter().rev().fold(0, |acc, x| acc * side + x);
    let count = side.pow(dim as u32);
    let coords = (0..count)
        .map(|mut i| {
            (0..dim)
                .map(|_| {
                    let x = i % side;
                    i /= side;
                    Real(x as f64 / n as f64)
                })
                .collect()
        })
        .collect();
    let mut cells = Vec::new();
    for b in 0..n.pow(dim as u32) {
        let mut rest = b;
        let corner: Vec<usize> = (0..dim)
            .map(|_| {
                let x = rest % n;
                rest /= n;
                x
            })
            .collect();
        for p in permutations(dim) {
            let mut at = corner.clone();
            let mut vertices = vec![index(&at)];
            for axis in p {
                at[axis] += 1;
                vertices.push(index(&at));
            }
            cells.push(Simplex::new(vertices).sorted());
        }
    }
    let complex = Complex::from_cells(Skeleton::new(cells));
    (complex, MeshCoords { dim, coords })
}

/// The reference simplex as a mesh.
fn standard(dim: usize) -> (Complex, MeshCoords<Real>) {
    let coords = (0..=dim)
        .map(|v| (0..dim).map(|axis| Real(if v == axis + 1 { 1.0 } else { 0.0 })).collect())
        .collect();
    (Complex::standard(dim), MeshCoords { dim, coords })
}

/// The edges of a simplex from its first vertex, one in each column.
fn jacobian(vertices: &[usize], coords: &MeshCoords<Real>) -> Mat {
    Mat::from_fn(coords.dim, vertices.len() - 1, |i, j| {
        coords.coords[vertices[j + 1]][i].0 - coords.coords[vertices[0]][i].0
    })
}

fn geometry_of(jacobian: &Mat) -> SimplexGeometry<Real> {
    let dim = jacobian.ncols();
    let metric = jacobian.transpose() * jacobian;
    let factorial = (1..=dim).product::<usize>() as f64;
    SimplexGeometry {
        dim,
        volume: Real(metric.determinant().sqrt() / factorial),
        inverse_metric: from_dense(&metric.try_inverse().unwrap()),
    }
}

fn standard_geometry(dim: usize) -> SimplexGeometry<Real> {
    geometry_of(&Mat::identity(dim, dim))
}

fn geometries(complex: &Complex, coords: &MeshCoords<Real>) -> Vec<SimplexGeometry<Real>> {
    let dim = complex.dim();
    (0..complex.nsimplices(dim))
        .map(|i| geometry_of(&jacobian(&complex.simplex_at(dim, i).vertices, coords)))
        .collect()
}

/// A rule that is exact for cubic polynomials.
fn order3(dim: usize) -> SimplexQuadRule<Real> {
    let (points, weights): (Vec<Vec<f64>>, Vec<f64>) = match dim {
        0 => (vec![vec![]], vec![1.0]),
        1 => (
            vec![vec![0.0], vec![0.5], vec![1.0]],
            vec![1.0 / 6.0, 4.0 / 6.0, 1.0 / 6.0],
        ),
        2 => (
            vec![
                vec![1.0 / 3.0, 1.0 / 3.0],
                vec![0.2, 0.2],
                vec![0.6, 0.2],
                vec![0.2, 0.6],
            ],
            vec![-27.0 / 48.0, 25.0 / 48.0, 25.0 / 48.0, 25.0 / 48.0],
        ),
        _ => {
            let s = 1.0 / 6.0;
            (
                vec![
                    vec![0.25, 0.25, 0.25],
                    vec![s, s, s],
                    vec![0.5, s, s],
                    vec![s, 0.5, s],
                    vec![s, s, 0.5],
                ],
                vec![-0.8, 0.45, 0.45, 0.45, 0.45],
            )
        }
    };
    SimplexQuadRule {
        dim,
        points: points.iter().map(|p| reals(p)).collect(),
        weights: reals(&weights),
    }
}

type Elmats = Vec<Vec<Real>>;

fn csr(m: &CsrMatrix<Real>) -> Mat {
    let mut dense = Mat::zeros(m.nrows(), m.ncols());
    for &(r, c, v) in m.triplets() {
        dense[(r, c)] += v.0;
    }
    dense
}

fn solve(system: &(CsrMatrix<Real>, Vec<Real>)) -> Vec<Real> {
    let rhs = Mat::from_column_slice(system.1.len(), 1, &floats(&system.1));
    reals(csr(&system.0).lu().solve(&rhs).expect("regular system").as_slice())
}

fn norm(values: &[Real]) -> f64 {
    values.iter().map(|v| v.0 * v.0).sum::<f64>().sqrt()
}

fn assert_vectors_close(lhs: &[Real], rhs: &[f64], tol: f64) {
    assert_eq!(lhs.len(), rhs.len());
    let max_diff = lhs.iter().zip(rhs).map(|(a, b)| (a.0 - b).abs()).fold(0.0, f64::max);
    assert!(max_diff <= tol, "vector entries differ by up to {max_diff}, tolerance {tol}");
}

fn scaled_mesh(dim: usize, n: usize, scale: f64) -> (Complex, MeshCoords<Real>) {
    let (complex, coords) = cartesian(dim, n);
    let points =
        coords.coords.iter().map(|p| p.iter().map(|x| Real(x.0 * scale)).collect()).collect();
    (complex, MeshCoords { dim, coords: points })
}

fn mass_elmats(geos: &Vec<SimplexGeometry<Real>>, dim: usize, grade: usize) -> Elmats {
    elmats_of(&HodgeMassElmat::new(dim, grade), geos)
}

fn weighted_mass_elmats(
    geos: &Vec<SimplexGeometry<Real>>,
    weights: &Vec<ScalarWeight<Real>>,
    dim: usize,
    grade: usize,
) -> Elmats {
    weighted_elmats_of(&HodgeMassElmat::new(dim, grade), geos, weights)
}

fn constant_weights(geos: &[SimplexGeometry<Real>], value: f64) -> Vec<ScalarWeight<Real>> {
    vec![ScalarWeight { value: Real(value) }; geos.len()]
}

fn inverse_blocks(
    complex: &Complex,
    grade: usize,
    lumped: &CooMatrix<Real>,
) -> (Vec<Vec<usize>>, Vec<DenseMatrix<Real>>) {
    let (dofs, blocks) = nc_lumped_mass_blocks(complex, grade, lumped).unwrap();
    let inverses = blocks
        .iter()
        .map(|block| from_dense(&dense(block).cholesky().expect("positive definite").inverse()))
        .collect();
    (dofs, inverses)
}

fn unit_blocks(
    complex: &Complex,
    geos: &Vec<SimplexGeometry<Real>>,
    grade: usize,
) -> (Vec<Vec<usize>>, Vec<DenseMatrix<Real>>) {
    inverse_blocks(complex, grade, &assemble_nc_lumped_mass_galmat(complex, grade, geos))
}

fn mixed_galmats(
    complex: &Complex,
    geos: &Vec<SimplexGeometry<Real>>,
    grade: usize,
) -> MixedGalmats<Real> {
    let dim = complex.dim();
    MixedGalmats::compute(
        complex,
        grade,
        &mass_elmats(geos, dim, grade),
        &mass_elmats(geos, dim, grade - 1),
        &mass_elmats(geos, dim, grade + 1),
    )
}

fn barycenter(complex: &Complex, coords: &MeshCoords<Real>, dim: usize, kidx: usize) -> Vec<f64> {
    let vertices = &complex.simplex_at(dim, kidx).vertices;
    (0..coords.dim)
        .map(|i| {
            vertices.iter().map(|&v| coords.coords[v][i].0).sum::<f64>() / vertices.len() as f64
        })
        .collect()
}

fn boundary_where(
    complex: &Complex,
    coords: &MeshCoords<Real>,
    dim: usize,
    predicate: &dyn Fn(&[f64]) -> bool,
) -> Vec<usize> {
    let holds: Vec<bool> = (0..complex.nsimplices(dim))
        .map(|kidx| predicate(&barycenter(complex, coords, dim, kidx)))
        .collect();
    boundary_simplices_where_barycenter(complex, dim, &holds)
}

fn boundary_kidxs(complex: &Complex, dim: usize) -> Vec<usize> {
    complex.boundary_subcomplex_simplices(dim).iter().map(|s| s.kidx).collect()
}

fn flags(n: usize, set: &[usize]) -> Vec<bool> {
    (0..n).map(|i| set.contains(&i)).collect()
}

fn essential_boundary(dofs: &[usize], values: &[f64]) -> EssentialBoundarySpec<Real> {
    let prescribed = dofs
        .iter()
        .zip(values)
        .map(|(&index, &value)| PrescribedDof { index, value: Real(value) })
        .collect();
    EssentialBoundarySpec::none().with_state(prescribed)
}

fn zero_boundary(dofs: &[usize]) -> EssentialBoundarySpec<Real> {
    essential_boundary(dofs, &vec![0.0; dofs.len()])
}

// Layouts and boundary conditions.

#[test]
fn layout_from_prescribed_builds_complement() {
    let layout =
        DofLayout::from_prescribed(4, vec![PrescribedDof { index: 1, value: Real(2.0) }]).unwrap();
    assert_eq!(layout.active_dofs, vec![0, 2, 3]);
    assert_eq!(layout.reduced_dimension(), 3);
}

#[test]
fn prescribed_dofs_reject_duplicates_bounds_and_nonfinite_values() {
    let prescribed = |dofs: &[(usize, f64)]| {
        let list = dofs
            .iter()
            .map(|&(index, value)| PrescribedDof { index, value: Real(value) })
            .collect();
        DofLayout::from_prescribed(2, list)
    };
    assert!(prescribed(&[(0, 1.0), (0, 2.0)]).is_err());
    assert!(prescribed(&[(2, 1.0)]).is_err());
    assert!(prescribed(&[(1, f64::NAN)]).is_err());
    assert!(prescribed(&[(1, 1.0), (0, 2.0)]).is_ok());
}

#[test]
fn square_reduction_and_prescribed_bias_use_one_canonical_layout() {
    let mut full = CooMatrix::zeros(3, 3);
    full.push(0, 0, Real(5.0));
    full.push(0, 1, Real(3.0));
    full.push(2, 1, Real(-4.0));
    full.push(2, 2, Real(7.0));
    let full = CsrMatrix::from_coo(&full);
    let layout =
        DofLayout::from_prescribed(3, vec![PrescribedDof { index: 1, value: Real(2.0) }]).unwrap();

    let reduced = reduce_square_with_layout(&full, &layout).unwrap();
    let bias = hard_dirichlet_bias(&full, &layout);

    assert_eq!(layout.active_dofs, vec![0, 2]);
    assert_eq!(reduced.nrows(), 2);
    assert_eq!(reduced.ncols(), 2);
    assert_eq!(csr(&reduced), Mat::from_row_slice(2, 2, &[5.0, 0.0, 0.0, 7.0]));
    assert_eq!(floats(&bias), vec![6.0, -8.0]);
}

#[test]
fn reduction_undoes_lifting() {
    let layout =
        DofLayout::from_prescribed(4, vec![PrescribedDof { index: 2, value: Real(9.0) }]).unwrap();
    let full = lift_reduced_with_layout(&layout, &reals(&[1.0, 2.0, 3.0])).unwrap();
    assert_eq!(floats(&full), vec![1.0, 2.0, 9.0, 3.0]);
    let reduced = reduce_vector_with_layout(&layout, &full).unwrap();
    assert_eq!(floats(&reduced), vec![1.0, 2.0, 3.0]);
    assert!(lift_reduced_with_layout(&layout, &reals(&[1.0])).is_err());
    assert!(reduce_vector_with_layout(&layout, &reals(&[1.0])).is_err());
}

// Time stepping.

#[test]
fn theta_method_accepts_interval_endpoints() {
    let half = ThetaMethod::new(Real(0.5)).unwrap();
    assert_eq!(half.theta(), ThetaMethod::<Real>::crank_nicolson().theta());
    let one = ThetaMethod::new(Real(1.0)).unwrap();
    assert_eq!(one.theta(), ThetaMethod::<Real>::backward_euler().theta());
}

#[test]
#[should_panic(expected = "0.5 <= theta <= 1.0")]
fn theta_method_rejects_values_below_half() {
    let method = ThetaMethod::new(Real(0.49));
    panic!("{}", method.err().unwrap());
}

#[test]
#[should_panic(expected = "0.5 <= theta <= 1.0")]
fn theta_method_rejects_values_above_one() {
    let method = ThetaMethod::new(Real(1.01));
    panic!("{}", method.err().unwrap());
}

#[test]
fn validate_time_grid_accepts_strictly_increasing_grid() {
    validate_time_grid(&reals(&[0.0, 0.1, 0.4])).unwrap();
}

#[test]
#[should_panic(expected = "at least two entries")]
fn validate_time_grid_requires_at_least_two_points() {
    validate_time_grid(&reals(&[0.0])).unwrap();
}

#[test]
#[should_panic(expected = "strictly increasing")]
fn validate_time_grid_rejects_repeated_entries() {
    validate_time_grid(&reals(&[0.0, 0.0, 0.1])).unwrap();
}

struct Heat {
    complex: Complex,
    mass: CsrMatrix<Real>,
    laplace: CsrMatrix<Real>,
}

fn heat(complex: Complex, coords: &MeshCoords<Real>) -> Heat {
    let geos = geometries(&complex, coords);
    let dim = complex.dim();
    let stiffness = elmats_of(&LaplaceBeltramiElmat::new(dim), &geos);
    let mass = elmats_of(&ScalarMassElmat::new(), &geos);
    let galmats = LaplaceBeltramiGalmats::compute(&complex, &stiffness, &mass);
    Heat { mass: galmats.mass_csr(), laplace: galmats.stiffness_csr(), complex }
}

fn solve_heat_theta(
    heat: &Heat,
    times: &[Real],
    method: ThetaMethod<Real>,
    boundary_data: &dyn Fn(f64, usize) -> f64,
    initial: &Cochain<Real>,
    source: &dyn Fn(f64) -> Cochain<Real>,
    diffusion_coeff: f64,
) -> Vec<Vec<Real>> {
    validate_time_grid(times).unwrap();
    let n = heat.complex.nsimplices(0);
    check_initial_data(initial, n).unwrap();
    let mut states = vec![initial.coeffs.clone()];
    for step in times.windows(2) {
        let (t0, t1) = (step[0], step[1]);
        let source_0 = source_vector_at(&source(t0.0), &heat.mass, t0).unwrap();
        let source_1 = source_vector_at(&source(t1.0), &heat.mass, t1).unwrap();
        let boundary: Vec<Real> = (0..n).map(|i| Real(boundary_data(t1.0, i))).collect();
        let system = heat_step(
            &heat.complex,
            &heat.mass,
            &heat.laplace,
            method,
            t0,
            t1,
            states.last().unwrap(),
            &source_0,
            &source_1,
            &boundary,
            Real(diffusion_coeff),
        );
        states.push(solve(&system));
    }
    states
}

#[test]
fn backward_euler_wrapper_matches_theta_solver() {
    let (topology, coords) = cartesian(1, 4);
    let n = topology.nsimplices(0);
    let heat = heat(topology, &coords);

    let dt = 0.1;
    let nsteps = 3;
    let times: Vec<Real> = (0..=nsteps).map(|i| Real(i as f64 * dt)).collect();
    let grid = heat_times(nsteps, Real(dt));
    assert_eq!(grid, times);
    let diffusion_coeff = 0.7;
    let initial = Cochain { dim: 0, coeffs: reals(&vec![0.0; n]) };
    let source = |_: f64| Cochain { dim: 0, coeffs: reals(&vec![1.0; n]) };

    let wrapped = solve_heat_theta(
        &heat,
        &grid,
        ThetaMethod::backward_euler(),
        &|_, _| 0.0,
        &initial,
        &source,
        diffusion_coeff,
    );
    let theta = solve_heat_theta(
        &heat,
        &times,
        ThetaMethod::new(Real(1.0)).unwrap(),
        &|_, _| 0.0,
        &initial,
        &source,
        diffusion_coeff,
    );

    assert_eq!(wrapped.len(), theta.len());
    for (lhs, rhs) in wrapped.iter().zip(&theta) {
        assert_vectors_close(lhs, &floats(rhs), 1e-12);
    }
    assert!(norm(wrapped.last().unwrap()) > 0.01);
}

#[test]
fn theta_heat_tracks_linear_exact_solution() {
    let (topology, coords) = cartesian(1, 8);
    let x: Vec<f64> = coords.coords.iter().map(|p| p[0].0).collect();
    let heat = heat(topology, &coords);
    let times = reals(&[0.0, 0.1, 0.2, 0.3]);
    let diffusion_coeff = 1.7;
    let initial = Cochain { dim: 0, coeffs: reals(&vec![0.0; x.len()]) };
    let boundary_data = |time: f64, idof: usize| time * x[idof];
    let source_data = |_: f64| Cochain { dim: 0, coeffs: reals(&x) };

    for method in [ThetaMethod::backward_euler(), ThetaMethod::crank_nicolson()] {
        let states = solve_heat_theta(
            &heat,
            &times,
            method,
            &boundary_data,
            &initial,
            &source_data,
            diffusion_coeff,
        );
        for (time, state) in times.iter().zip(&states) {
            let expected: Vec<f64> = x.iter().map(|x| time.0 * x).collect();
            assert_vectors_close(state, &expected, 1e-10);
        }
    }
}

#[test]
fn heat_data_of_the_wrong_kind_is_refused() {
    let edges = Cochain { dim: 1, coeffs: reals(&[0.0; 3]) };
    assert!(check_initial_data(&edges, 3).is_err());
    let short = Cochain { dim: 0, coeffs: reals(&[0.0; 2]) };
    assert!(check_initial_data(&short, 3).is_err());
    let mass = CsrMatrix::<Real>::zeros(3, 3);
    assert!(source_vector_at(&edges, &mass, Real(0.5)).is_err());
    assert!(source_vector_at(&short, &mass, Real(0.5)).is_err());
}

// Scalar problems.

#[test]
fn laplace_beltrami_galmats_match_direct_assembly() {
    let (topology, coords) = cartesian(2, 1);
    let geos = geometries(&topology, &coords);
    let stiffness = elmats_of(&LaplaceBeltramiElmat::new(2), &geos);
    let mass = elmats_of(&ScalarMassElmat::new(), &geos);

    let mats = LaplaceBeltramiGalmats::compute(&topology, &stiffness, &mass);
    let stiffness_ref = coo(&assemble_galmat(&topology, 0, 0, &stiffness));
    let mass_ref = coo(&assemble_galmat(&topology, 0, 0, &mass));
    assert_close(&coo(mats.stiffness()), &stiffness_ref, 1e-12);
    assert_close(&coo(mats.mass()), &mass_ref, 1e-12);

    let weights = constant_weights(&geos, 2.0);
    let stiffness_weighted = weighted_elmats_of(&LaplaceBeltramiElmat::new(2), &geos, &weights);
    let mass_weighted = weighted_elmats_of(&ScalarMassElmat::new(), &geos, &weights);
    let mats_weighted =
        LaplaceBeltramiGalmats::compute(&topology, &stiffness_weighted, &mass_weighted);
    assert_close(&coo(mats_weighted.stiffness()), &(2.0 * stiffness_ref), 1e-12);
    assert_close(&coo(mats_weighted.mass()), &(2.0 * mass_ref), 1e-12);
}

#[test]
fn poisson_problem_reproduces_linear_functions() {
    let (topology, coords) = cartesian(2, 3);
    let geos = geometries(&topology, &coords);
    let stiffness = elmats_of(&LaplaceBeltramiElmat::new(2), &geos);
    let exact: Vec<f64> =
        coords.coords.iter().map(|p| 1.0 + 2.0 * p[0].0 - 3.0 * p[1].0).collect();
    let n = topology.nsimplices(0);
    let system = solve_laplace_beltrami_source(
        &topology,
        &stiffness,
        reals(&vec![0.0; n]),
        &reals(&exact),
        None,
    );
    assert_vectors_close(&solve(&system), &exact, 1e-12);
}

// Mixed problems.

#[test]
fn schur_complement_lumped_dimensions() {
    let (topology, coords) = cartesian(2, 2);
    let galmats = mixed_galmats(&topology, &geometries(&topology, &coords), 1);
    let mass_u = galmats.mass_u_csr();
    let laplacian = galmats.hodge_laplacian_schur_complement_lumped();

    assert!(mass_u.nrows() > 0);
    assert_eq!(mass_u.nrows(), mass_u.ncols());
    assert_eq!(laplacian.nrows(), mass_u.nrows());
    assert_eq!(laplacian.ncols(), mass_u.ncols());
}

#[test]
fn harmonics_with_galmats_zero_dim() {
    let (topology, coords) = cartesian(2, 2);
    let galmats = mixed_galmats(&topology, &geometries(&topology, &coords), 1);
    let plan = solve_hodge_laplace_harmonics_with_galmats(&galmats, 0, None, None);
    assert!(plan.is_none());
    let plan = solve_hodge_laplace_harmonics_with_galmats(&galmats, 1, None, None);
    assert!(plan.is_some());
    let (sigma, u) = split_eigenvectors(&[reals(&[1.0, 2.0, 3.0])], 1, 2);
    assert_eq!(floats(&sigma[0]), vec![1.0]);
    assert_eq!(floats(&u[0]), vec![2.0, 3.0]);
    assert!(harmonics_of(reals(&[1e-14]), vec![reals(&[1.0])]).is_ok());
    assert!(harmonics_of(reals(&[1.0]), vec![reals(&[1.0])]).is_err());
}

#[test]
fn source_solver_with_strong_boundary_conditions_accepts_full_rhs_lengths() {
    let (topology, coords) = cartesian(2, 2);
    let galmats = mixed_galmats(&topology, &geometries(&topology, &coords), 1);
    let k_mask = flags(galmats.u_len(), &boundary_kidxs(&topology, 1));
    let k_minus_one_mask = flags(galmats.sigma_len(), &boundary_kidxs(&topology, 0));
    let k_data = reals(&vec![0.0; galmats.u_len()]);
    let k_minus_one_data = reals(&vec![0.0; galmats.sigma_len()]);
    let conditions = StrongConditions {
        k_minus_one_mask: &k_minus_one_mask,
        k_minus_one_data: &k_minus_one_data,
        k_mask: &k_mask,
        k_data: &k_data,
    };

    let system = solve_hodge_laplace_source_with_galmats_and_boundary_conditions(
        &galmats,
        None,
        reals(&vec![0.0; galmats.u_len()]),
        &[],
        &conditions,
    )
    .unwrap();
    let (sigma, u, p) = source_solution(&galmats, 1, &conditions, &solve(&system));

    assert_eq!(sigma.coeffs.len(), galmats.sigma_len());
    assert_eq!(u.coeffs.len(), galmats.u_len());
    assert_eq!(p.coeffs.len(), 0);

    let short = solve_hodge_laplace_source_with_galmats_and_boundary_conditions(
        &galmats,
        None,
        reals(&[0.0]),
        &[],
        &conditions,
    );
    assert!(short.is_err());
}

fn transient_run(
    galmats: &MixedGalmats<Real>,
    initial_u: Cochain<Real>,
    initial_sigma: Option<Cochain<Real>>,
    config: &MixedTransientConfig<Real>,
) -> Vec<MixedTransientState<Real>> {
    config.validate().unwrap();
    check_initial_u(galmats, &initial_u, 1).unwrap();
    let consistent = consistent_sigma(galmats, &initial_u, config);
    let sigma = initial_sigma_from_state(galmats, initial_sigma, consistent, 1).unwrap();
    let mut states = vec![MixedTransientState { sigma, u: initial_u }];
    for at in 0..config.times.len() - 1 {
        let prev = states.last().unwrap();
        let system = solve_hodge_laplace_transient_step(galmats, prev, config, at).unwrap();
        states.push(transient_state(galmats, &solve(&system), config, at + 1, 1));
    }
    states
}

fn consistent_sigma(
    galmats: &MixedGalmats<Real>,
    u: &Cochain<Real>,
    config: &MixedTransientConfig<Real>,
) -> Cochain<Real> {
    let system = consistent_sigma_from_u(galmats, u, config, 0).unwrap();
    Cochain { dim: 0, coeffs: system.map_or(vec![], |s| solve(&s)) }
}

#[test]
fn transient_solver_zero_state_stays_zero() {
    let (topology, coords) = cartesian(2, 2);
    let galmats = mixed_galmats(&topology, &geometries(&topology, &coords), 1);
    let (sigma_len, u_len) = (galmats.sigma_len(), galmats.u_len());
    let times = reals(&[0.0, 0.1, 0.2]);
    let config = MixedTransientConfig {
        times: &times,
        method: ThetaMethod::backward_euler(),
        sigma_rhs_at: &vec![reals(&vec![0.0; sigma_len]); 3],
        u_rhs_at: &vec![reals(&vec![0.0; u_len]); 3],
        k_strong_bc_mask: None,
        k_strong_bc_data_at: None,
        k_minus_one_strong_bc_mask: None,
        k_minus_one_strong_bc_data_at: None,
    };
    let initial_u = Cochain { dim: 1, coeffs: reals(&vec![0.0; u_len]) };

    let solution = transient_run(&galmats, initial_u, None, &config);
    assert_eq!(solution.len(), 3);
    for state in solution {
        assert_vectors_close(&state.sigma.coeffs, &vec![0.0; sigma_len], 1e-12);
        assert_vectors_close(&state.u.coeffs, &vec![0.0; u_len], 1e-12);
    }
}

#[test]
fn transient_solver_recovers_missing_sigma_consistently() {
    let (topology, coords) = cartesian(2, 2);
    let galmats = mixed_galmats(&topology, &geometries(&topology, &coords), 1);
    let (sigma_len, u_len) = (galmats.sigma_len(), galmats.u_len());
    let times = reals(&[0.0, 0.1]);
    let config = MixedTransientConfig {
        times: &times,
        method: ThetaMethod::backward_euler(),
        sigma_rhs_at: &vec![reals(&vec![0.0; sigma_len]); 2],
        u_rhs_at: &vec![reals(&vec![0.0; u_len]); 2],
        k_strong_bc_mask: None,
        k_strong_bc_data_at: None,
        k_minus_one_strong_bc_mask: None,
        k_minus_one_strong_bc_data_at: None,
    };
    let initial_u = || Cochain { dim: 1, coeffs: reals(&vec![0.25; u_len]) };
    let given = consistent_sigma(&galmats, &initial_u(), &config);

    let recovered = transient_run(&galmats, initial_u(), None, &config);
    let explicit = transient_run(&galmats, initial_u(), Some(given), &config);

    assert_eq!(recovered.len(), explicit.len());
    for (lhs, rhs) in recovered.iter().zip(&explicit) {
        assert_vectors_close(&lhs.sigma.coeffs, &floats(&rhs.sigma.coeffs), 1e-12);
        assert_vectors_close(&lhs.u.coeffs, &floats(&rhs.u.coeffs), 1e-12);
    }

    let wrong = Cochain { dim: 0, coeffs: reals(&vec![100.0; sigma_len]) };
    let consistent = consistent_sigma(&galmats, &initial_u(), &config);
    assert!(initial_sigma_from_state(&galmats, Some(wrong), consistent, 1).is_err());
}

#[test]
fn transient_solver_reintroduces_strong_boundary_data() {
    let (topology, coords) = cartesian(2, 2);
    let galmats = mixed_galmats(&topology, &geometries(&topology, &coords), 1);
    let (sigma_len, u_len) = (galmats.sigma_len(), galmats.u_len());
    let boundary_u = boundary_kidxs(&topology, 1);
    let boundary_sigma = boundary_kidxs(&topology, 0);
    let times = reals(&[0.0, 0.25]);
    let data_at = |sign: f64, n: usize| -> Vec<Vec<Real>> {
        times
            .iter()
            .map(|t| (0..n).map(|kidx| Real(sign * t.0 * (1.0 + kidx as f64))).collect())
            .collect()
    };
    let config = MixedTransientConfig {
        times: &times,
        method: ThetaMethod::backward_euler(),
        sigma_rhs_at: &vec![reals(&vec![0.0; sigma_len]); 2],
        u_rhs_at: &vec![reals(&vec![0.0; u_len]); 2],
        k_strong_bc_mask: Some(&flags(u_len, &boundary_u)),
        k_strong_bc_data_at: Some(&data_at(1.0, u_len)),
        k_minus_one_strong_bc_mask: Some(&flags(sigma_len, &boundary_sigma)),
        k_minus_one_strong_bc_data_at: Some(&data_at(-1.0, sigma_len)),
    };

    let initial_u = Cochain { dim: 1, coeffs: reals(&vec![0.0; u_len]) };
    let solution = transient_run(&galmats, initial_u, None, &config);
    let state = solution.last().unwrap();

    for kidx in boundary_u {
        assert!((state.u.coeffs[kidx].0 - 0.25 * (1.0 + kidx as f64)).abs() <= 1e-12);
    }
    for kidx in boundary_sigma {
        assert!((state.sigma.coeffs[kidx].0 + 0.25 * (1.0 + kidx as f64)).abs() <= 1e-12);
    }
}

// Reduced linear problems.

/// The volumes of the cells, and for each vertex whether its block is positive definite.
fn dual_inputs(
    complex: &Complex,
    coords: &MeshCoords<Real>,
    grade: usize,
) -> (Vec<Real>, Vec<bool>) {
    let volumes: Vec<Real> = geometries(complex, coords).iter().map(|g| g.volume).collect();
    let config = BarycentricDualSparseInverseConfig::default();
    let flags = (0..complex.nsimplices(0))
        .map(|vertex| {
            let local = barycentric_dual_sparse_inverse_local_block(
                complex, coords, &volumes, vertex, grade, config,
            );
            let block = local.unwrap().inverse_block;
            let n = block.nrows();
            Mat::from_row_slice(n, n, &floats(block.as_slice())).cholesky().is_some()
        })
        .collect();
    (volumes, flags)
}

#[test]
fn every_mass_inverse_strategy_is_grade_aware_and_finite() {
    let (topology, coords) = cartesian(3, 1);
    let geos = geometries(&topology, &coords);
    let (vertex_dofs, blocks) = unit_blocks(&topology, &geos, 1);
    let (volumes, flags) = dual_inputs(&topology, &coords, 1);
    let config = BarycentricDualSparseInverseConfig::default();
    let dual = |coords, positive_definite| MassInverseApproximation::BarycentricDual {
        coords,
        volumes: &volumes,
        positive_definite,
        config,
    };
    let refused = vec![false; flags.len()];
    let cases = [
        (0, MassInverseApproximation::RowSumLumped),
        (
            1,
            MassInverseApproximation::WhitneyProjected {
                vertex_dofs: &vertex_dofs,
                inverse_blocks: &blocks,
            },
        ),
        (1, dual(Some(&coords), &flags)),
        (3, MassInverseApproximation::ExactTopDegreeDiagonal),
    ];

    for (grade, strategy) in cases {
        let elmats = mass_elmats(&geos, 3, grade);
        let inverse = assemble_mass_inverse(&topology, grade, &elmats, &strategy)
            .expect("supported mass-inverse strategy should assemble");
        let dimension = topology.skeleton(grade).len();
        assert_eq!(inverse.nrows(), dimension);
        assert_eq!(inverse.ncols(), dimension);
        assert!(inverse.triplets().iter().all(|(_, _, value)| value.0.is_finite()));
        assert!(inverse.nnz() > 0);
    }

    assert!(assemble_mass_inverse(
        &topology,
        1,
        &mass_elmats(&geos, 3, 1),
        &MassInverseApproximation::ExactTopDegreeDiagonal,
    )
    .is_err());
    assert!(assemble_mass_inverse(
        &topology,
        1,
        &mass_elmats(&geos, 3, 1),
        &dual(None, &flags),
    )
    .is_err());
    let text = assemble_mass_inverse(
        &topology,
        1,
        &mass_elmats(&geos, 3, 1),
        &dual(Some(&coords), &refused),
    )
    .err()
    .unwrap();
    assert!(text.contains("not positive definite for vertex 0, grade 1"));
    let text = assemble_mass_inverse(
        &topology,
        3,
        &mass_elmats(&geos, 3, 3),
        &dual(Some(&coords), &flags),
    )
    .err()
    .unwrap();
    assert!(text.contains("Whitney 1- and 2-forms"));
}

#[test]
fn two_form_hodge_assembly_keeps_lower_and_state_inverse_dimensions_distinct() {
    let (topology, coords) = cartesian(3, 1);
    let geos = geometries(&topology, &coords);
    let (lower_dofs, lower_blocks) = unit_blocks(&topology, &geos, 1);
    let (state_dofs, state_blocks) = unit_blocks(&topology, &geos, 2);
    let mass = mass_elmats(&geos, 3, 2);
    let lower_mass = mass_elmats(&geos, 3, 1);
    let upper_mass = mass_elmats(&geos, 3, 3);
    let stiffness = elmats_of(&LaplaceBeltramiElmat::new(3), &geos);
    let elmats = HodgeElmats {
        mass: &mass,
        lower_mass: &lower_mass,
        upper_mass: &upper_mass,
        stiffness: &stiffness,
    };
    let assembled = assemble_reduced_hodge_operators(
        &topology,
        2,
        &elmats,
        &EssentialBoundarySpec::none(),
        Some(&MassInverseApproximation::WhitneyProjected {
            vertex_dofs: &lower_dofs,
            inverse_blocks: &lower_blocks,
        }),
        &MassInverseApproximation::WhitneyProjected {
            vertex_dofs: &state_dofs,
            inverse_blocks: &state_blocks,
        },
    )
    .expect("the lower inverse should be used");

    let lower = assembled.lower_mass_inverse.expect("the lower inverse should be kept");
    assert_eq!(lower.nrows(), topology.nsimplices(1));
    assert_eq!(lower.ncols(), topology.nsimplices(1));
    assert_eq!(assembled.state_mass_inverse.nrows(), topology.nsimplices(2));
    assert_eq!(assembled.state_mass_inverse.ncols(), topology.nsimplices(2));

    let missing = assemble_reduced_hodge_operators(
        &topology,
        2,
        &elmats,
        &EssentialBoundarySpec::none(),
        None,
        &MassInverseApproximation::RowSumLumped,
    );
    assert!(missing.is_err());
}

#[test]
fn reduced_laplace_beltrami_system_eliminates_prescribed_dofs() {
    let (topology, coords) = cartesian(2, 2);
    let geos = geometries(&topology, &coords);
    let soft: Vec<usize> = boundary_kidxs(&topology, 0).into_iter().take(2).collect();
    let boundary = essential_boundary(&soft, &[1.0, 2.0]);
    let system = build_reduced_laplace_beltrami_system(
        &topology,
        &elmats_of(&LaplaceBeltramiElmat::new(2), &geos),
        &elmats_of(&ScalarMassElmat::new(), &geos),
        &boundary,
    )
    .expect("0-form system should assemble");

    assert_eq!(system.layout.reduced_dimension(), system.layout.full_dimension - soft.len());
    assert_eq!(system.layout.prescribed_dofs.len(), soft.len());
}

fn hodge_laplace_1form(
    topology: &Complex,
    geos: &Vec<SimplexGeometry<Real>>,
    weights: Option<&Vec<ScalarWeight<Real>>>,
    boundary: &EssentialBoundarySpec<Real>,
) -> ReducedLinearPdeAssembly<Real> {
    let dim = topology.dim();
    match weights {
        None => {
            let (vertex_dofs, blocks) = unit_blocks(topology, geos, 1);
            build_reduced_hodge_laplace_1form_system(
                topology,
                &mass_elmats(geos, dim, 1),
                &mass_elmats(geos, dim, 0),
                &mass_elmats(geos, dim, 2),
                &vertex_dofs,
                &blocks,
                boundary,
            )
        }
        Some(weights) => {
            let lumped = assemble_nc_lumped_mass_galmat_weighted(topology, 1, geos, weights);
            let (vertex_dofs, blocks) = inverse_blocks(topology, 1, &lumped);
            build_reduced_weighted_hodge_laplace_1form_system(
                topology, geos, weights, &vertex_dofs, &blocks, boundary,
            )
        }
    }
    .unwrap()
}

#[test]
fn weighted_reduced_hodge_laplace_1form_matches_unweighted_for_unit_weight() {
    let (topology, coords) = cartesian(2, 2);
    let geos = geometries(&topology, &coords);
    let auxiliary = boundary_where(&topology, &coords, 0, &|p| p[0] == 0.0)
        .into_iter()
        .take(1)
        .map(|index| PrescribedDof { index, value: Real(0.0) })
        .collect();
    let boundary = EssentialBoundarySpec::none().with_auxiliary(auxiliary);

    let unweighted = hodge_laplace_1form(&topology, &geos, None, &boundary);
    let weighted =
        hodge_laplace_1form(&topology, &geos, Some(&constant_weights(&geos, 1.0)), &boundary);

    assert_eq!(unweighted.layout.active_dofs, weighted.layout.active_dofs);
    assert_eq!(unweighted.layout.full_dimension, weighted.layout.full_dimension);
    assert_eq!(unweighted.residual_bias.len(), weighted.residual_bias.len());

    let difference = |a: &CsrMatrix<Real>, b: &CsrMatrix<Real>| (csr(a) - csr(b)).norm();
    assert!(difference(&unweighted.operator, &weighted.operator) <= 1e-10);
    assert!(difference(&unweighted.state_mass, &weighted.state_mass) <= 1e-10);
    let inverse = unweighted.state_mass_inverse.as_ref().expect("inverse of the mass");
    let weighted_inverse = weighted.state_mass_inverse.as_ref().expect("inverse of the mass");
    assert_eq!(inverse.nrows(), weighted_inverse.nrows());
    assert!(difference(inverse, weighted_inverse) <= 1e-10);
    assert_vectors_close(&unweighted.residual_bias, &floats(&weighted.residual_bias), 1e-10);
}

#[test]
fn weighted_reduced_hodge_laplace_1form_exposes_reduced_nc1_inverse() {
    let (topology, coords) = cartesian(2, 2);
    let geos = geometries(&topology, &coords);
    let weights = (0..geos.len())
        .map(|cell| {
            let point = barycenter(&topology, &coords, 2, cell);
            ScalarWeight { value: Real(1.0 + point[0] + 0.5 * point[1]) }
        })
        .collect();

    let system =
        hodge_laplace_1form(&topology, &geos, Some(&weights), &EssentialBoundarySpec::none());

    let reduced_inverse = system.state_mass_inverse.as_ref().expect("inverse of the mass");
    assert_eq!(reduced_inverse.nrows(), system.state_dimension());
    assert_eq!(reduced_inverse.ncols(), system.state_dimension());
    assert!(reduced_inverse.triplets().iter().all(|(_, _, value)| value.0.is_finite()));
}

#[test]
fn row_sum_lumped_inverse_matches_diagonal_inverse_of_row_sums() {
    let mut m = CooMatrix::zeros(3, 3);
    for (r, c, v) in [
        (0, 0, 2.0),
        (0, 1, 1.0),
        (1, 0, 1.0),
        (1, 1, 3.0),
        (1, 2, 2.0),
        (2, 1, 2.0),
        (2, 2, 4.0),
    ] {
        m.push(r, c, Real(v));
    }

    let inverse = csr(&row_sum_lumped_inverse(&CsrMatrix::from_coo(&m)));

    assert!(close(inverse[(0, 0)], 1.0 / 3.0, 1e-12, 0.0));
    assert!(close(inverse[(1, 1)], 1.0 / 6.0, 1e-12, 0.0));
    assert!(close(inverse[(2, 2)], 1.0 / 6.0, 1e-12, 0.0));
    assert!(close(inverse[(0, 1)], 0.0, 1e-12, 0.0));
    assert!(close(inverse[(1, 2)], 0.0, 1e-12, 0.0));
}

#[test]
fn values_are_copied_and_compared() {
    let boundary = EssentialBoundarySpec::<Real>::default();
    assert!(boundary.state.is_empty() && boundary.auxiliary.is_empty());
    let some = essential_boundary(&[1, 3], &[2.0, 4.0]);
    assert_eq!(some.clone(), some);
    assert_ne!(some, boundary);
    let layout = DofLayout::from_prescribed(5, some.state.clone()).unwrap();
    assert_eq!(layout.clone(), layout);
    let (complex, coords) = cartesian(2, 2);
    let copy = complex.clone();
    for k in 0..=2 {
        assert_eq!(copy.nsimplices(k), complex.nsimplices(k));
        for i in 0..complex.nsimplices(k) {
            assert_eq!(copy.simplex_at(k, i).vertices, complex.simplex_at(k, i).vertices);
        }
    }
    assert_eq!(coords.clone(), coords);
    let mut coo: CooMatrix<i64> = CooMatrix::zeros(2, 2);
    coo.push(1, 0, 7);
    let csr = CsrMatrix::from_coo(&coo);
    assert_eq!(csr.clone(), csr);
    assert_ne!(csr, CsrMatrix::from_coo(&CooMatrix::zeros(2, 2)));
}

#[test]
fn eliminated_systems_keep_the_free_equations() {
    let matrix = |nrows: usize, ncols: usize, values: &[i64]| {
        let mut m: CooMatrix<i64> = CooMatrix::zeros(nrows, ncols);
        for (i, &v) in values.iter().enumerate() {
            m.push(i / ncols, i % ncols, v);
        }
        m
    };
    let apply = |m: &CooMatrix<i64>, x: &[i64]| -> Vec<i64> {
        let mut y = vec![0; m.nrows()];
        for &(r, c, v) in m.triplets() {
            y[r] += v * x[c];
        }
        y
    };
    let a = matrix(2, 2, &[2, 1, 1, 3]);
    let b = matrix(2, 3, &[1, 0, -2, 4, 5, 0]);
    let c = matrix(3, 2, &[7, 1, 0, 2, -1, 3]);
    let d = matrix(3, 3, &[1, 2, 3, 4, 5, 6, 7, 8, 10]);
    let (sigma, u) = ([11, -3], [5, 13, -7]);
    let sum = |x: Vec<i64>, y: Vec<i64>| -> Vec<i64> {
        x.iter().zip(&y).map(|(x, y)| x + y).collect()
    };
    let system = MixedSystem {
        mass_sigma: &a,
        codif_u_neg: &b,
        dif_sigma: &c,
        u_block: &d,
        sigma_rhs: &sum(apply(&a, &sigma), apply(&b, &u)),
        u_rhs: &sum(apply(&c, &sigma), apply(&d, &u)),
        sigma_mask: &[true, false],
        sigma_data: &[11, 0],
        u_mask: &[false, true, false],
        u_data: &[0, 13, 0],
    };
    let (reduced, sigma_rhs, u_rhs) = system.eliminate();
    assert_eq!((reduced.nrows(), reduced.ncols()), (3, 3));
    let free = [-3, 5, -7];
    assert_eq!(apply(&reduced, &free), [sigma_rhs, u_rhs].concat());
    assert_eq!(with_prescribed(&free[..1], system.sigma_mask, system.sigma_data), sigma);
    assert_eq!(with_prescribed(&free[1..], system.u_mask, system.u_data), u);
}

#[test]
fn scaling_keeps_stored_zeros_unless_the_factor_is_zero() {
    let mut coo: CooMatrix<i64> = CooMatrix::zeros(2, 3);
    coo.push(0, 1, 0);
    coo.push(1, 2, 4);
    let m = CsrMatrix::from_coo(&coo);
    assert_eq!(scale_sparse(&m, 3).triplets().to_vec(), vec![(0, 1, 0), (1, 2, 12)]);
    let nothing = scale_sparse(&m, 0);
    assert_eq!((nothing.nrows(), nothing.ncols(), nothing.nnz()), (2, 3, 0));
}

#[test]
fn barycentric_dual_operator_builds_positive_definite_reduced_system() {
    let (topology, coords) = scaled_mesh(3, 1, PI);
    let geos = geometries(&topology, &coords);
    let sigma_bc = boundary_dofs(&topology, 1);
    let u_bc = boundary_dofs(&topology, 2);
    let galmats = mixed_galmats(&topology, &geos, 2);
    let (volumes, flags) = dual_inputs(&topology, &coords, 1);
    let inverse = assemble_barycentric_dual_1form_sparse_inverse_galmat(
        &topology,
        &coords,
        &volumes,
        BarycentricDualSparseInverseConfig::default(),
        &flags,
    );

    let operator = assemble_reduced_barycentric_dual_operator(
        &galmats,
        &sigma_bc,
        &u_bc,
        inverse,
        kappa(),
    )
    .expect("barycentric-dual reduced Schur operator should assemble");

    assert_eq!(operator.nrows(), galmats.free_u_len(&u_bc));
    assert_eq!(operator.ncols(), operator.nrows());
    assert!(csr(&operator).cholesky().is_some());

    let refused = assemble_reduced_barycentric_dual_operator(
        &galmats,
        &sigma_bc,
        &u_bc,
        Err("no inverse".to_string()),
        kappa(),
    );
    assert!(refused.is_err());
}

// Magnetic problems.

/// The map of the forms of the reference simplex to space.
fn lift(inverse: &DenseMatrix<Real>, grade: usize) -> DenseMatrix<Real> {
    let columns: Vec<Vec<f64>> = (0..3)
        .map(|b| {
            let mut coeffs = vec![Real(0.0); 3];
            coeffs[b] = Real(1.0);
            floats(precompose_form(&ExteriorElement::new(coeffs, 3, grade), inverse).coeffs())
        })
        .collect();
    from_dense(&Mat::from_fn(3, 3, |i, j| columns[j][i]))
}

/// The forms of the edges on each cell, at its barycenter.
fn all_cell_forms(complex: &Complex, coords: &MeshCoords<Real>) -> Vec<CellForms<Real>> {
    (0..complex.nsimplices(3))
        .map(|cell| {
            let j = jacobian(&complex.simplex_at(3, cell).vertices, coords);
            let inverse = from_dense(&j.clone().try_inverse().unwrap());
            let center = barycenter(complex, coords, 3, cell);
            let forms = cell_forms(&CellGeometry {
                volume: Real(j.determinant().abs() / 6.0),
                barycenter: [Real(center[0]), Real(center[1]), Real(center[2])],
                lift_1: lift(&inverse, 1),
                lift_2: lift(&inverse, 2),
            });
            assert_whitney_forms(complex, coords, cell, &inverse, &forms);
            forms
        })
        .collect()
}

fn assert_whitney_forms(
    complex: &Complex,
    coords: &MeshCoords<Real>,
    cell: usize,
    inverse: &DenseMatrix<Real>,
    forms: &CellForms<Real>,
) {
    let bary = reals(&[0.25; 3]);
    for (i, edge) in complex.subsimplex_indices(3, cell, 1).into_iter().enumerate() {
        let mut coeffs = vec![Real(0.0); complex.nsimplices(1)];
        coeffs[edge] = Real(1.0);
        let cochain = Cochain { dim: 1, coeffs: coeffs.clone() };
        let dif = DifWhitneyForm::new(&cochain, complex, coords).on_known_cell_intrinsic(cell);
        let form = WhitneyForm::new(Cochain { dim: 1, coeffs }, complex, coords)
            .eval_known_cell_local_intrinsic(cell, &bary);
        let two = floats(precompose_form(&dif, inverse).coeffs());
        assert_vectors_close(&forms.two_forms[i], &two, 1e-12);
        let one = floats(precompose_form(&form, inverse).coeffs());
        assert_vectors_close(&forms.one_forms[i], &one, 1e-12);
    }
}

fn edge_values(complex: &Complex, coords: &MeshCoords<Real>, scale: f64) -> Vec<f64> {
    (0..complex.nsimplices(1))
        .map(|edge| {
            let t = jacobian(&complex.simplex_at(1, edge).vertices, coords);
            let sines: Vec<f64> = barycenter(complex, coords, 1, edge)
                .iter()
                .map(|x| (PI * x).sin())
                .collect();
            scale
                * (sines[1] * sines[2] * t[0] + sines[2] * sines[0] * t[1]
                    + sines[0] * sines[1] * t[2])
        })
        .collect()
}

fn on_active(layout: &DofLayout<Real>, full: &[f64]) -> Vec<Real> {
    layout.active_dofs.iter().map(|&dof| Real(full[dof])).collect()
}

/// Compares a Jacobian with differences of residuals.
fn assert_jacobian<M: ResidualModel<Real>>(model: &M, state: &[Real], tolerance: &dyn Fn(f64) -> f64) {
    let evaluation: ResidualEvaluation<Real> = model.residual_and_jacobian(state).unwrap();
    let jacobian = csr(&evaluation.jacobian);
    let eps = 1e-6;
    for col in 0..model.state_dimension() {
        let mut plus = state.to_vec();
        let mut minus = state.to_vec();
        plus[col] = Real(plus[col].0 + eps);
        minus[col] = Real(minus[col].0 - eps);
        let plus = model.residual(&plus).unwrap();
        let minus = model.residual(&minus).unwrap();
        for row in 0..model.residual_dimension() {
            let difference = (plus[row].0 - minus[row].0) / (2.0 * eps);
            let exact = jacobian[(row, col)];
            assert!(
                (difference - exact).abs() <= tolerance(exact),
                "mismatch at ({row}, {col}): {exact} against {difference}"
            );
        }
    }
}

fn tiny_problem() -> (
    ReducedScalarAzMagnetostatic2d<Real, NonlinearReluctivityLaw<Real>>,
    Vec<Real>,
) {
    let (topology, coords) = cartesian(2, 3);
    let boundary = zero_boundary(&boundary_kidxs(&topology, 0));
    let material = NonlinearReluctivityLaw::new(Real(1.3), Real(0.4)).unwrap();
    let model = build_reduced_scalar_az_magnetostatic_2d(
        &topology,
        &coords,
        NonlinearMagnetostaticAssemblyConfig::new(material, boundary),
    )
    .unwrap();
    let full: Vec<f64> = coords
        .coords
        .iter()
        .map(|p| (PI * p[0].0).sin() * (PI * p[1].0).sin())
        .collect();
    let truth = on_active(model.layout(), &full);
    (model, truth)
}

type VectorModel = ReducedVectorPotentialMagnetostatic3d<Real, NonlinearReluctivityLaw<Real>>;

fn vector_model(
    topology: &Complex,
    coords: &MeshCoords<Real>,
    material: NonlinearReluctivityLaw<Real>,
    boundary: EssentialBoundarySpec<Real>,
) -> VectorModel {
    let geos = geometries(topology, coords);
    let weights = (0..geos.len())
        .map(|cell| {
            let p = barycenter(topology, coords, 3, cell);
            let point = [Real(p[0]), Real(p[1]), Real(p[2])];
            ScalarWeight { value: material.linear_reference_reluctivity(point) }
        })
        .collect();
    let lumped = assemble_nc_lumped_mass_galmat_weighted(topology, 1, &geos, &weights);
    let (vertex_dofs, blocks) = inverse_blocks(topology, 1, &lumped);
    let cells = LinearHodgeCells {
        geometries: &geos,
        vertex_dofs: &vertex_dofs,
        inverse_blocks: &blocks,
    };
    build_reduced_vector_potential_magnetostatic_3d(
        topology,
        coords,
        &all_cell_forms(topology, coords),
        &cells,
        NonlinearMagnetostaticAssemblyConfig::new(material, boundary),
    )
    .unwrap()
}

fn vector_problem_3d(level: usize) -> (Complex, VectorModel, Vec<Real>) {
    let (topology, coords) = cartesian(3, level);
    let material = NonlinearReluctivityLaw::new(Real(1.0), Real(0.25)).unwrap();
    let model = vector_model(&topology, &coords, material, EssentialBoundarySpec::none());
    let truth = on_active(model.layout(), &edge_values(&topology, &coords, 0.2));
    (topology, model, truth)
}

#[test]
fn nonlinear_reluctivity_derivative_matches_finite_differences() {
    let law = NonlinearReluctivityLaw::new(Real(2.0), Real(0.7)).unwrap();
    let s = 1.4;
    let eps = 1e-6;
    let origin = [Real(0.0); 3];
    let difference =
        (law.nu(origin, Real(s + eps)).0 - law.nu(origin, Real(s - eps)).0) / (2.0 * eps);
    assert!((difference - law.d_nu_ds(origin, Real(s)).0).abs() <= 1e-9);

    let eddy = NonlinearEddyCurrentReluctivityLaw::new(Real(2.0), Real(0.5)).unwrap();
    assert_eq!(eddy.nu(Real(3.0)).0, 5.0);
    assert_eq!(eddy.d_nu_ds(Real(3.0)).0, 1.0);
    assert!(NonlinearEddyCurrentReluctivityLaw::new(Real(0.0), Real(0.5)).is_err());
    assert!(NonlinearEddyCurrentReluctivityLaw::new(Real(1.0), Real(-0.5)).is_err());
    assert!(NonlinearReluctivityLaw::new(Real(f64::NAN), Real(0.5)).is_err());
}

#[test]
fn manufactured_truth_has_zero_residual() {
    let (model, truth) = tiny_problem();
    let source = model.manufactured_source(&truth).unwrap();
    let model = model.with_source(source).unwrap();
    let residual = model.residual_and_jacobian(&truth).unwrap().residual;
    let norm = norm(&residual);
    assert!(norm <= 1e-11, "manufactured residual norm was {norm}");
}

#[test]
fn sparse_jacobian_matches_finite_differences() {
    let (model, truth) = tiny_problem();
    let source = model.manufactured_source(&truth).unwrap();
    let model = model.with_source(source).unwrap();
    assert_jacobian(&model, &truth, &|_| 2e-5);
}

#[test]
fn states_and_sources_of_the_wrong_length_are_refused() {
    let (model, _truth) = tiny_problem();
    assert!(model.residual_and_jacobian(&reals(&[1.0])).is_err());
    let n = model.reduced_dimension();
    assert!(model.residual_and_jacobian(&reals(&vec![f64::NAN; n])).is_err());
    assert!(model.with_source(reals(&[1.0])).is_err());
}

#[test]
fn nonlinear_magnetostatic_3d_layout_uses_only_supplied_hard_edges() {
    let (topology, coords) = cartesian(3, 2);
    let mut supplied_edges: Vec<usize> =
        boundary_kidxs(&topology, 1).into_iter().take(3).collect();
    supplied_edges.sort_unstable();
    let material = NonlinearReluctivityLaw::new(Real(1.0), Real(0.25)).unwrap();
    let model = vector_model(&topology, &coords, material, zero_boundary(&supplied_edges));
    assert_eq!(model.boundary_edge_dofs(), supplied_edges.as_slice());
    assert!(model.gauge_edge_dofs().is_empty());
    assert!(model.reduced_dimension() > 0);
    assert_eq!(model.reduced_dimension(), topology.nsimplices(1) - supplied_edges.len());
}

#[test]
fn nonlinear_magnetostatic_3d_manufactured_truth_has_zero_residual() {
    let (_topology, model, truth) = vector_problem_3d(2);
    let source = model.manufactured_source(&truth).unwrap();
    let model = model.with_source(source).unwrap();
    let residual = model.residual_and_jacobian(&truth).unwrap().residual;
    let norm = norm(&residual);
    assert!(norm <= 1e-10, "3D manufactured residual norm was {norm}");
}

#[test]
fn nonlinear_magnetostatic_3d_ungauged_model_preserves_source_and_residual() {
    let (_topology, model, truth) = vector_problem_3d(1);
    let ungauged = model.without_coulomb_gauge();
    let source = ungauged.manufactured_source(&truth).unwrap();
    let ungauged = ungauged.with_source(source.clone()).unwrap();
    assert_eq!(ungauged.source(), source.as_slice());

    let evaluation = ungauged.residual_and_jacobian(&truth).unwrap();
    let residual_norm = norm(&evaluation.residual);
    assert!(residual_norm <= 1e-10, "ungauged residual norm was {residual_norm}");
    assert!(evaluation.jacobian.nnz() > 0);
    assert!(evaluation.jacobian.triplets().iter().all(|(_, _, value)| value.0.is_finite()));
}

#[test]
fn nonlinear_magnetostatic_3d_sparse_jacobian_matches_finite_differences() {
    let (_topology, model, truth) = vector_problem_3d(1);
    let source = model.manufactured_source(&truth).unwrap();
    let model = model.with_source(source).unwrap();
    assert_jacobian(&model, &truth, &|_| 2e-5);
}

#[test]
fn local_magnetic_strong_probe_dimensions_are_selected_cells_by_active_edges() {
    let (topology, model, _truth) = vector_problem_3d(1);
    let selected_cells = vec![0, topology.nsimplices(3) - 1];
    let probe =
        LocalMagneticStrongProbe3d::from_vector_potential_model(&model, selected_cells).unwrap();
    assert_eq!(probe.state_dimension(), model.reduced_dimension());
    assert_eq!(probe.residual_dimension(), 6);

    let zero = reals(&vec![0.0; model.reduced_dimension()]);
    let evaluation = probe.residual_and_jacobian(&zero).unwrap();
    assert_eq!(evaluation.residual.len(), 6);
    assert_eq!(evaluation.jacobian.nrows(), 6);
    assert_eq!(evaluation.jacobian.ncols(), model.reduced_dimension());

    let missing = vec![topology.nsimplices(3)];
    assert!(LocalMagneticStrongProbe3d::from_vector_potential_model(&model, missing).is_err());
}

#[test]
fn local_magnetic_strong_probe_jacobian_matches_finite_differences() {
    let (_topology, model, truth) = vector_problem_3d(1);
    let selected_cells = (0..model.num_elements()).collect();
    let probe =
        LocalMagneticStrongProbe3d::from_vector_potential_model(&model, selected_cells).unwrap();
    assert_jacobian(&probe, &truth, &|_| 2e-5);
}

#[test]
fn local_magnetic_strong_probe_zero_field_no_source_has_small_curl_residual() {
    let (_topology, model, _truth) = vector_problem_3d(1);
    let selected_cells = (0..model.num_elements()).collect();
    let probe =
        LocalMagneticStrongProbe3d::from_vector_potential_model(&model, selected_cells).unwrap();
    let state = reals(&vec![0.0; model.reduced_dimension()]);
    let residual = probe.residual_and_jacobian(&state).unwrap().residual;
    let norm = norm(&residual);
    assert!(norm <= 1e-12, "zero-field local probe residual was {norm}");
}

#[test]
fn local_magnetic_strong_probe_beta_zero_tangent_is_finite_and_sparse() {
    let (topology, coords) = cartesian(3, 1);
    let material = NonlinearReluctivityLaw::new(Real(1.7), Real(0.0)).unwrap();
    let model = vector_model(&topology, &coords, material, EssentialBoundarySpec::none());
    let probe = LocalMagneticStrongProbe3d::from_vector_potential_model(&model, vec![0]).unwrap();
    let state = reals(&vec![0.0; model.reduced_dimension()]);
    let evaluation = probe.residual_and_jacobian(&state).unwrap();
    assert!(evaluation.residual.iter().all(|value| value.0.is_finite()));
    assert!(evaluation.jacobian.nnz() > 0);
    assert!(evaluation.jacobian.triplets().iter().all(|(_, _, value)| value.0.is_finite()));
}

#[test]
fn nonlinear_beta_zero_jacobian_matches_reduced_hodge_laplacian() {
    let (topology, coords) = cartesian(3, 2);
    let material = NonlinearReluctivityLaw::new(Real(2.5), Real(0.0)).unwrap();
    let model = vector_model(&topology, &coords, material, EssentialBoundarySpec::none());
    let zero = reals(&vec![0.0; model.reduced_dimension()]);
    let evaluation = model.source_free_residual_and_jacobian(&zero).unwrap();

    let geos = geometries(&topology, &coords);
    let weights = constant_weights(&geos, 2.5);
    let linear =
        hodge_laplace_1form(&topology, &geos, Some(&weights), &EssentialBoundarySpec::none());
    assert_eq!(model.layout().active_dofs, linear.layout.active_dofs);
    let difference = csr(&evaluation.jacobian) - csr(&linear.operator);
    assert!(difference.iter().all(|x| x.abs() <= 1e-9));
}

// Eddy currents.

fn eddy_system(
    topology: &Complex,
    coords: &MeshCoords<Real>,
    boundary: &EssentialBoundarySpec<Real>,
) -> formoniq::problems::eddy_current::ReducedEddyCurrent1FormSystem<Real> {
    let geos = geometries(topology, coords);
    let (vertex_dofs, blocks) = unit_blocks(topology, &geos, 1);
    let cells = EddyCurrentCells {
        geometries: &geos,
        vertex_dofs: &vertex_dofs,
        inverse_blocks: &blocks,
    };
    let one = constant_weights(&geos, 1.0);
    build_reduced_eddy_current_1form_system(topology, coords.dim, &cells, &one, &one, boundary)
        .expect("eddy-current blocks should assemble")
}

#[test]
fn reduced_eddy_current_blocks_have_free_edge_dimensions() {
    let (topology, coords) = cartesian(3, 1);
    let outer_edges = boundary_where(&topology, &coords, 1, &|point| point[0] == 0.0);
    let system = eddy_system(&topology, &coords, &zero_boundary(&outer_edges));

    let free_dim = topology.nsimplices(1) - outer_edges.len();
    assert_eq!(system.reduced_dimension(), free_dim);
    assert_eq!(system.curl_curl.nrows(), free_dim);
    assert_eq!(system.curl_curl.ncols(), free_dim);
    assert_eq!(system.conductivity_mass.nrows(), free_dim);
    assert_eq!(system.conductivity_mass.ncols(), free_dim);
    assert_eq!(system.state_mass_inverse.nrows(), free_dim);
    assert_eq!(system.state_mass_inverse.ncols(), free_dim);

    let geos = geometries(&topology, &coords);
    let (vertex_dofs, blocks) = unit_blocks(&topology, &geos, 1);
    let full = coo(&assemble_whitney_projected_sparse_inverse_from_blocks(
        &topology, 1, &vertex_dofs, &blocks,
    ));
    let active = &system.layout.active_dofs;
    let reduced = Mat::from_fn(free_dim, free_dim, |i, j| full[(active[i], active[j])]);
    assert_close(&csr(&system.state_mass_inverse), &reduced, 1e-12);
}

#[test]
fn reduced_eddy_current_bias_folds_nonzero_fixed_dofs() {
    let (topology, coords) = cartesian(3, 1);
    let system = eddy_system(&topology, &coords, &essential_boundary(&[0], &[2.0]));

    assert_eq!(system.curl_curl_fixed_bias.len(), system.reduced_dimension());
    assert_eq!(system.conductivity_fixed_bias.len(), system.reduced_dimension());
    assert!(system.conductivity_fixed_bias.iter().any(|value| value.0.abs() > 1e-12));
}

#[test]
fn screened_eddy_current_sinusoidal_source_matches_reference_formula() {
    let value = |point: [f64; 3], amplitude: f64| {
        let sines = [
            Real((PI * point[0]).sin()),
            Real((PI * point[1]).sin()),
            Real((PI * point[2]).sin()),
        ];
        screened_eddy_current_sinusoidal_source_value(sines, Real(amplitude))
            .expect("source value should evaluate")
    };
    let v = value([0.5, 0.5, 0.5], 2.0);
    assert!((v[0].0 - 2.0).abs() < 1e-14);
    assert!((v[1].0 - 2.0).abs() < 1e-14);
    assert!((v[2].0 - 2.0).abs() < 1e-14);

    let v = value([0.0, 0.5, 0.5], 3.0);
    assert!((v[0].0 - 3.0).abs() < 1e-14);
    assert!(v[1].0.abs() < 1e-14);
    assert!(v[2].0.abs() < 1e-14);

    for amplitude in [0.0, -1.0, f64::NAN, f64::INFINITY] {
        let complaint = "screened eddy-current source amplitude must be finite and positive";
        assert_eq!(validate_source_amplitude(Real(amplitude)), Err(complaint.to_string()));
    }
}

#[test]
fn screened_eddy_current_source_reduction_respects_hard_boundary_edges() {
    let (topology, coords) = cartesian(3, 1);
    let boundary_edges = boundary_kidxs(&topology, 1);
    let boundary = zero_boundary(&boundary_edges);
    let geos = geometries(&topology, &coords);
    let maps = linear_maps(&topology, &coords);
    let rule = SimplexQuadRule::barycentric(3);
    let cells = SourceCells { geometries: &geos, linear_maps: &maps, rule: &rule };
    let sines = barycenter_sines(&topology, &coords);
    let source = assemble_reduced_screened_eddy_current_sinusoidal_source(
        &topology, 3, &boundary, &cells, &sines, Real(1.0),
    )
    .expect("analytic source should assemble");
    assert_eq!(source.len(), topology.nsimplices(1) - boundary_edges.len());
    assert!(source.iter().all(|value| value.0.is_finite()));
    assert!(source.iter().any(|value| value.0.abs() > 1e-14));

    let values = vec![vec![vec![Real(0.0); 3]]; geos.len()];
    let field = SampledField { grade: 2, dim: 3, values: &values };
    let refused =
        assemble_reduced_eddy_current_1form_source(&topology, 3, &boundary, &cells, &field);
    assert_eq!(
        refused.err().unwrap(),
        "screened eddy-current source must be a 1-form, got grade 2"
    );
    assert!(assemble_reduced_screened_eddy_current_sinusoidal_source(
        &topology, 3, &boundary, &cells, &sines, Real(0.0),
    )
    .is_err());
}

fn linear_maps(topology: &Complex, coords: &MeshCoords<Real>) -> Vec<DenseMatrix<Real>> {
    (0..topology.nsimplices(3))
        .map(|cell| from_dense(&jacobian(&topology.simplex_at(3, cell).vertices, coords)))
        .collect()
}

fn barycenter_sines(topology: &Complex, coords: &MeshCoords<Real>) -> Vec<Vec<[Real; 3]>> {
    (0..topology.nsimplices(3))
        .map(|cell| {
            let p = barycenter(topology, coords, 3, cell);
            vec![[0, 1, 2].map(|i| Real((PI * p[i]).sin()))]
        })
        .collect()
}

#[test]
fn sinusoidal_source_is_assembled_from_its_values_and_grows_with_the_amplitude() {
    let (topology, coords) = cartesian(3, 1);
    let boundary = EssentialBoundarySpec::none();
    let geos = geometries(&topology, &coords);
    let maps = linear_maps(&topology, &coords);
    let rule = SimplexQuadRule::barycentric(3);
    let cells = SourceCells { geometries: &geos, linear_maps: &maps, rule: &rule };
    let sines = barycenter_sines(&topology, &coords);
    let with = |amplitude: f64| {
        assemble_reduced_screened_eddy_current_sinusoidal_source(
            &topology, 3, &boundary, &cells, &sines, Real(amplitude),
        )
        .unwrap()
    };
    let values: Vec<Vec<Vec<Real>>> = sines
        .iter()
        .zip(&maps)
        .map(|(sines, map)| {
            let value =
                screened_eddy_current_sinusoidal_source_value(sines[0], Real(2.5)).unwrap();
            vec![precompose_form(&ExteriorElement::new(value.to_vec(), 3, 1), map).coeffs]
        })
        .collect();
    let expected =
        assemble_galvec(&topology, 1, &elvecs_of(&SourceElVec::new(1, &rule, &values), &geos));
    assert_vectors_close(&with(2.5), &floats(&expected), 1e-14);
    let doubled: Vec<f64> = floats(&with(2.5)).iter().map(|x| 2.0 * x).collect();
    assert_vectors_close(&with(5.0), &doubled, 1e-13);

    let at_points = screened_eddy_current_sinusoidal_source(&sines, Real(2.0)).unwrap();
    let p = &sines[0][0];
    assert_eq!(at_points[0][0][0].0, 2.0 * p[1].0 * p[2].0);
    assert_eq!(
        screened_eddy_current_sinusoidal_source(&sines, Real(-2.0)).err().unwrap(),
        "screened eddy-current source amplitude must be finite and positive"
    );
}

#[test]
fn screened_problem_is_weighted_by_its_material() {
    let (topology, coords) = cartesian(3, 1);
    let geos = geometries(&topology, &coords);
    let (vertex_dofs, blocks) = unit_blocks(&topology, &geos, 1);
    let cells =
        EddyCurrentCells { geometries: &geos, vertex_dofs: &vertex_dofs, inverse_blocks: &blocks };
    let boundary = EssentialBoundarySpec::none();
    let one = constant_weights(&geos, 1.0);
    let unit =
        build_reduced_eddy_current_1form_system(&topology, 3, &cells, &one, &one, &boundary)
            .unwrap();
    let model = build_reduced_nonlinear_screened_eddy_current_1form(
        &topology,
        &coords,
        &all_cell_forms(&topology, &coords),
        &cells,
        &order3(3),
        NonlinearScreenedEddyCurrentAssemblyConfig::new(
            NonlinearEddyCurrentReluctivityLaw::new(Real(2.0), Real(0.1)).unwrap(),
            Real(3.0),
            boundary,
        ),
    )
    .unwrap();
    let expected = csr(&unit.curl_curl) * 2.0 + csr(&unit.conductivity_mass) * 3.0;
    assert_close(&csr(model.beta_zero_operator()), &expected, 1e-12);
    assert_close(&csr(model.state_mass()), &csr(&unit.conductivity_mass), 1e-12);
}

type EddyModel = ReducedNonlinearScreenedEddyCurrent1Form<Real>;

fn nonlinear_eddy_problem(level: usize, beta: f64, scale: f64) -> (EddyModel, Vec<Real>) {
    let (topology, coords) = cartesian(3, level);
    let geos = geometries(&topology, &coords);
    let (vertex_dofs, blocks) = unit_blocks(&topology, &geos, 1);
    let cells = EddyCurrentCells {
        geometries: &geos,
        vertex_dofs: &vertex_dofs,
        inverse_blocks: &blocks,
    };
    let model = build_reduced_nonlinear_screened_eddy_current_1form(
        &topology,
        &coords,
        &all_cell_forms(&topology, &coords),
        &cells,
        &SimplexQuadRule::barycentric(3),
        NonlinearScreenedEddyCurrentAssemblyConfig::new(
            NonlinearEddyCurrentReluctivityLaw::new(Real(1.3), Real(beta)).unwrap(),
            Real(0.7),
            EssentialBoundarySpec::none(),
        ),
    )
    .expect("nonlinear screened eddy-current model should assemble");
    let state = on_active(model.layout(), &edge_values(&topology, &coords, scale));
    (model, state)
}

#[test]
fn nonlinear_eddy_current_beta_zero_jacobian_matches_linear_screened_operator() {
    let (model, state) = nonlinear_eddy_problem(1, 0.0, 0.1);
    let evaluation = model.source_free_residual_and_jacobian(&state).unwrap();

    let operator = csr(model.beta_zero_operator());
    let linear = &operator * Mat::from_column_slice(state.len(), 1, &floats(&state));
    let expected: Vec<f64> =
        linear.iter().zip(model.beta_zero_bias()).map(|(a, b)| a + b.0).collect();
    assert_vectors_close(&evaluation.residual, &expected, 1e-10);
    assert!((csr(&evaluation.jacobian) - operator).iter().all(|x| x.abs() < 1e-10));
}

#[test]
fn nonlinear_eddy_current_manufactured_truth_has_near_zero_residual() {
    let (source_free, truth) = nonlinear_eddy_problem(1, 0.4, 0.15);
    let source = source_free.manufactured_source(&truth).unwrap();
    let model = source_free.with_source(source).unwrap();
    let residual = model.residual_and_jacobian(&truth).unwrap().residual;
    assert!(norm(&residual) < 1e-11, "manufactured truth residual should be near zero");
}

#[test]
fn nonlinear_eddy_current_sparse_jacobian_matches_finite_differences() {
    let (source_free, state) = nonlinear_eddy_problem(1, 0.6, 0.08);
    let source = source_free.manufactured_source(&state).unwrap();
    let model = source_free.with_source(source).unwrap();
    assert_jacobian(&model, &state, &|exact| 2e-5 * exact.abs().max(1.0));
}

#[test]
fn nonlinear_eddy_current_local_residual_probe_jacobian_matches_finite_differences() {
    let (source_free, state) = nonlinear_eddy_problem(1, 0.35, 0.06);
    let source = source_free.manufactured_source(&state).unwrap();
    let model = source_free.with_source(source).unwrap();
    let selected_cells = (0..model.num_elements().min(3)).collect();
    let probe = LocalEddyCurrentResidualProbe3d::from_model(&model, selected_cells)
        .expect("local probe should assemble");
    assert_eq!(probe.residual_dimension(), 3 * probe.selected_cells().len());
    assert_eq!(probe.state_dimension(), model.reduced_dimension());
    assert_jacobian(&probe, &state, &|exact| 5e-5 * exact.abs().max(1.0));
}

#[test]
fn configured_eigenproblem_is_the_named_one() {
    let (topology, coords) = cartesian(2, 2);
    let geos = geometries(&topology, &coords);
    let galmats = mixed_galmats(&topology, &geos, 1);
    let direct = GhiepReducedSolve::Direct;
    let iterative = GhiepReducedSolve::Iterative;
    let named = solve_hodge_laplace_evp_with_galmats(&galmats, None, None);
    for solve in [direct, iterative] {
        let configured = solve_hodge_laplace_evp_with_galmats_config(
            &galmats, None, None, GhiepWhich::Smallest, solve,
        );
        match (&configured, &named) {
            (
                EvpPlan::Mixed { lhs: a, rhs: b, sigma_len: n, u_len: m },
                EvpPlan::Mixed { lhs, rhs, sigma_len, u_len },
            ) => {
                assert_eq!((n, m), (sigma_len, u_len));
                assert_eq!(csr(a), csr(lhs));
                assert_eq!(csr(b), csr(rhs));
            }
            _ => panic!("both problems are mixed"),
        }
        let largest = solve_hodge_laplace_evp_with_galmats_config(
            &galmats, None, None, GhiepWhich::Largest, solve,
        );
        match &largest {
            EvpPlan::Reduced { l, mass_solve, .. } => {
                assert_eq!(*mass_solve, solve);
                assert_eq!(csr(l), coo(&galmats.codifdif_u));
            }
            _ => panic!("the first unknown is eliminated"),
        }
    }
    match solve_hodge_laplace_evp_largest_with_galmats(&galmats, None, None) {
        EvpPlan::Reduced { mass_solve, .. } => assert_eq!(mass_solve, direct),
        _ => panic!("the first unknown is eliminated"),
    }
}

#[test]
fn reduced_laplace_acts_as_the_full_one() {
    let (topology, coords) = cartesian(2, 2);
    let geos = geometries(&topology, &coords);
    let stiffness = elmats_of(&LaplaceBeltramiElmat::new(2), &geos);
    let mass = elmats_of(&ScalarMassElmat::new(), &geos);
    let boundary = essential_boundary(&[0, 4], &[2.0, -1.5]);
    let system =
        build_reduced_laplace_beltrami_system(&topology, &stiffness, &mass, &boundary).unwrap();
    let full = coo(&assemble_galmat(&topology, 0, 0, &stiffness));
    let n = system.layout.active_dofs.len();
    assert_eq!(n, topology.nsimplices(0) - 2);
    let state: Vec<f64> = (0..n).map(|i| (1.0 + i as f64).sin()).collect();
    let lifted = lift_reduced_with_layout(&system.layout, &reals(&state)).unwrap();
    let acted = full * Mat::from_column_slice(lifted.len(), 1, &floats(&lifted));
    let reduced = csr(&system.operator) * Mat::from_column_slice(n, 1, &state);
    for (r, &dof) in system.layout.active_dofs.iter().enumerate() {
        assert!((acted[dof] - reduced[r] - system.residual_bias[r].0).abs() < 1e-12);
    }
}

#[test]
fn source_shifts_the_residual_and_keeps_the_jacobian() {
    let (model, state) = nonlinear_eddy_problem(1, 0.4, 0.15);
    let free = model.source_free_residual_and_jacobian(&state).unwrap();
    let source: Vec<Real> = (0..state.len()).map(|i| Real(0.25 * i as f64)).collect();
    let model = model.with_source(source.clone()).unwrap();
    let driven = model.residual_and_jacobian(&state).unwrap();
    assert_eq!(csr(&driven.jacobian), csr(&free.jacobian));
    for i in 0..state.len() {
        assert_eq!(driven.residual[i].0, free.residual[i].0 - source[i].0);
    }
}

#[test]
fn inverse_blocks_give_the_inverse_of_the_lumped_mass() {
    let (topology, coords) = cartesian(2, 2);
    let geos = geometries(&topology, &coords);
    let lumped = assemble_nc_lumped_mass_galmat(&topology, 1, &geos);
    let (vertex_dofs, blocks) = inverse_blocks(&topology, 1, &lumped);
    let n = lumped.nrows();
    let inverse =
        coo(&assemble_nc_lumped_mass_inverse_from_blocks(n, &vertex_dofs, &blocks));
    assert_close(&(coo(&lumped) * &inverse), &Mat::identity(n, n), 1e-11);
    for dofs in &vertex_dofs {
        for &d in dofs {
            for c in (0..n).filter(|c| !dofs.contains(c)) {
                assert_eq!(inverse[(d, c)], 0.0);
            }
        }
    }
}

#[test]
fn constant_weights_average_to_themselves() {
    let rule = order3(3);
    let weights = averaged_constants(&rule, Real(2.5), 4);
    assert_eq!(weights.len(), 4);
    assert!(weights.iter().all(|w| (w.value.0 - 2.5).abs() < 1e-14));
    let exact = averaged_constants(&SimplexQuadRule::<Real>::barycentric(3), Real(2.5), 1);
    assert_eq!(exact[0].value.0, 2.5);
}

#[test]
fn weighted_eigenproblems_are_those_of_weighted_matrices() {
    let (topology, coords) = cartesian(2, 2);
    let geos = geometries(&topology, &coords);
    let two = constant_weights(&geos, 2.0);
    let plain = mixed_galmats(&topology, &geos, 1);
    match solve_weighted_hodge_laplace_evp_largest(&topology, 1, &geos, &two) {
        EvpPlan::Reduced { l, mk, mkm1, .. } => {
            assert_close(&csr(&l), &(coo(&plain.codifdif_u) * 2.0), 1e-12);
            assert_close(&csr(&mk), &(coo(&plain.mass_u) * 2.0), 1e-12);
            assert_close(&csr(&mkm1), &(coo(&plain.mass_sigma) * 2.0), 1e-12);
        }
        _ => panic!("the first unknown is eliminated"),
    }
    let mut sigma = vec![false; topology.nsimplices(0)];
    let mut u = vec![false; topology.nsimplices(1)];
    sigma[0] = true;
    u[1] = true;
    u[2] = true;
    let weighted = solve_weighted_hodge_laplace_evp_with_boundary_conditions(
        &topology, 1, &geos, &constant_weights(&geos, 1.0), &sigma, &u,
    );
    let unweighted = solve_hodge_laplace_evp_with_galmats(&plain, Some(&sigma), Some(&u));
    match (&weighted, &unweighted) {
        (
            EvpPlan::Mixed { lhs: a, rhs: b, sigma_len: n, u_len: m },
            EvpPlan::Mixed { lhs, rhs, .. },
        ) => {
            assert_eq!((*n, *m), (sigma.len() - 1, u.len() - 2));
            assert_close(&csr(a), &csr(lhs), 1e-12);
            assert_close(&csr(b), &csr(rhs), 1e-12);
        }
        _ => panic!("both problems are mixed"),
    }
    match solve_weighted_hodge_laplace_evp_with_boundary_conditions_largest(
        &topology, 1, &geos, &two, &sigma, &u,
    ) {
        EvpPlan::Reduced { mk, .. } => assert_eq!(mk.nrows(), u.len() - 2),
        _ => panic!("the first unknown is eliminated"),
    }
    assert!(solve_weighted_hodge_laplace_harmonics(&topology, 1, 0, &geos, &two).is_none());
    assert!(solve_weighted_hodge_laplace_harmonics(&topology, 1, 1, &geos, &two).is_some());
    assert!(matches!(
        solve_weighted_hodge_laplace_evp(&topology, 1, &geos, &two),
        EvpPlan::Mixed { .. }
    ));
}

#[test]
fn weighted_laplace_beltrami_problems_scale_with_the_weight() {
    let (topology, coords) = cartesian(2, 2);
    let geos = geometries(&topology, &coords);
    let n = topology.nsimplices(0);
    let stiffness = elmats_of(&LaplaceBeltramiElmat::new(2), &geos);
    let three = constant_weights(&geos, 3.0);
    let source: Vec<Real> = (0..n).map(|i| Real(1.0 + i as f64)).collect();
    let none = vec![false; n];
    let data = vec![Real(0.0); n];
    let plain = solve_laplace_beltrami_source(
        &topology, &stiffness, source.clone(), &data, Some(&none),
    );
    let weighted = solve_laplace_beltrami_source_weighted(
        &topology, &geos, &three, source.clone(), &data, Some(&none),
    );
    assert_close(&csr(&weighted.0), &(csr(&plain.0) * 3.0), 1e-12);
    assert_eq!(floats(&weighted.1), floats(&source));

    let (a, b) = solve_laplace_beltrami_evp_weighted(&topology, &geos, &three);
    let mass = coo(&assemble_galmat(
        &topology, 0, 0, &elmats_of(&ScalarMassElmat::new(), &geos),
    ));
    assert_close(&csr(&a), &(csr(&plain.0) * 3.0), 1e-12);
    assert_close(&csr(&b), &(mass * 3.0), 1e-12);
}
