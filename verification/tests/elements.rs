#![allow(dead_code)]

use formoniq::io::fields::MeshCoords;
use formoniq::linalg::dense::DenseMatrix;
use formoniq::linalg::scalar::Scalar;
use formoniq::linalg::sparse::CooMatrix;
use formoniq::operators::elements::SimplexGeometry;
use formoniq::operators::weights::SimplexQuadRule;
use formoniq::topology::complex::Complex;
use formoniq::topology::simplex::Simplex;
use formoniq::topology::skeleton::Skeleton;
use formoniq::assemble::elements::{
    assemble_nc1_lumped_mass_galmat, assemble_nc1_lumped_mass_galmat_weighted,
    assemble_nc1_mass_galmat, assemble_nc1_mass_galmat_weighted,
    assemble_nc2_lumped_mass_galmat, assemble_nc2_lumped_mass_galmat_weighted,
    assemble_nc2_mass_galmat, assemble_nc2_mass_galmat_weighted, assemble_nc_lumped_mass_galmat,
    assemble_nc_lumped_mass_galmat_weighted, elmats_of, elvecs_of, weighted_elmats_of,
};
use formoniq::assemble::galerkin::{assemble_galmat, assemble_galvec};
use formoniq::assemble::nonconforming::{
    assemble_nc1_to_whitney_projection_galmat, assemble_nc2_to_whitney_projection_galmat,
    assemble_nc_lumped_mass_inverse_from_blocks, assemble_nc_to_whitney_projection_galmat,
    assemble_whitney_projected_sparse_inverse_from_blocks,
    assemble_whitney_to_nc1_embedding_galmat, assemble_whitney_to_nc2_embedding_galmat,
    nc_lumped_mass_blocks,
};
use formoniq::operators::derivatives::{CodifDifElmat, CodifElmat, DifElmat};
use formoniq::operators::elements::{
    CoordAwareElMatProvider, ElMatProvider, ElMatProviderBase, HodgeMassElmat,
    LaplaceBeltramiElmat, ScalarLumpedMassElmat, ScalarMassElmat,
};
use formoniq::operators::local_slots::{
    nc1_local_dof_vertex, nc1_local_embedding_matrix, nc1_local_projection_matrix,
    nc_local_dof_vertex,
};
use formoniq::operators::quadrature_elements::{Nc1LumpedMassElmat, Nc1MassElmat};
use formoniq::operators::reference::{standard_subsimps, wedge_of};
use formoniq::operators::weights::{averaged_cell_weight, ScalarWeight};

type Mat = nalgebra::DMatrix<f64>;

/// Machine reals as coefficients.
#[derive(Clone, Copy, Debug, PartialEq, PartialOrd)]
struct Real(f64);

impl Scalar for Real {
    fn zero() -> Self {
        Real(0.0)
    }
    fn one() -> Self {
        Real(1.0)
    }
    fn plus(self, other: Self) -> Self {
        Real(self.0 + other.0)
    }
    fn minus(self, other: Self) -> Self {
        Real(self.0 - other.0)
    }
    fn times(self, other: Self) -> Self {
        Real(self.0 * other.0)
    }
    fn negated(self) -> Self {
        Real(-self.0)
    }
    fn over(self, other: Self) -> Self {
        Real(self.0 / other.0)
    }
    fn is_zero(self) -> bool {
        self.0 == 0.0
    }
    fn is_finite(self) -> bool {
        self.0.is_finite()
    }
    fn is_below(self, other: Self) -> bool {
        self.0 < other.0
    }
    fn is_at_most(self, other: Self) -> bool {
        self.0 <= other.0
    }
    fn from_count(n: u64) -> Self {
        Real(n as f64)
    }
    fn from_word(word: u64) -> Self {
        Real(f64::from_bits(word))
    }
    fn infinity() -> Self {
        Real(f64::INFINITY)
    }
    fn square_root(self) -> Self {
        Real(self.0.sqrt())
    }
    fn hypot(self, other: Self) -> Self {
        Real(self.0.hypot(other.0))
    }
    fn logarithm(self) -> Self {
        Real(self.0.ln())
    }
    fn display(self) -> String {
        format!("{}", self.0)
    }
    fn fixed(self, digits: usize) -> String {
        format!("{:.*}", digits, self.0)
    }
    fn parsed(text: &str) -> Option<Self> {
        text.parse::<f64>().ok().map(Real)
    }
    fn scientific(self, digits: usize) -> String {
        format!("{:.*e}", digits, self.0)
    }
}

fn reals(values: &[f64]) -> Vec<Real> {
    values.iter().map(|&v| Real(v)).collect()
}

fn floats(values: &[Real]) -> Vec<f64> {
    values.iter().map(|v| v.0).collect()
}

fn dense(m: &DenseMatrix<Real>) -> Mat {
    Mat::from_fn(m.nrows(), m.ncols(), |i, j| m.get(i, j).0)
}

fn from_dense(m: &Mat) -> DenseMatrix<Real> {
    let values = (0..m.nrows())
        .flat_map(|i| (0..m.ncols()).map(move |j| (i, j)))
        .map(|(i, j)| Real(m[(i, j)]))
        .collect();
    DenseMatrix::from_rows(m.nrows(), m.ncols(), values)
}

fn coo(m: &CooMatrix<Real>) -> Mat {
    let mut dense = Mat::zeros(m.nrows(), m.ncols());
    for &(r, c, v) in m.triplets() {
        dense[(r, c)] += v.0;
    }
    dense
}

fn close(a: f64, b: f64, epsilon: f64, max_relative: f64) -> bool {
    let gap = (a - b).abs();
    a == b || gap <= epsilon || gap <= max_relative * a.abs().max(b.abs())
}

fn assert_close(a: &Mat, b: &Mat, tolerance: f64) {
    assert_eq!(a.shape(), b.shape());
    for (x, y) in a.iter().zip(b.iter()) {
        assert!(close(*x, *y, tolerance, tolerance), "{x} against {y}");
    }
}

/// Permutations of the axes.
fn permutations(n: usize) -> Vec<Vec<usize>> {
    if n == 0 {
        return vec![vec![]];
    }
    let mut all = Vec::new();
    for rest in permutations(n - 1) {
        for at in 0..n {
            let mut p = rest.clone();
            p.insert(at, n - 1);
            all.push(p);
        }
    }
    all
}

/// The unit cube divided into boxes, each box into simplices along the paths of its edges.
fn cartesian(dim: usize, n: usize) -> (Complex, MeshCoords<Real>) {
    let side = n + 1;
    let index = |at: &[usize]| at.iter().rev().fold(0, |acc, x| acc * side + x);
    let count = side.pow(dim as u32);
    let coords = (0..count)
        .map(|mut i| {
            (0..dim)
                .map(|_| {
                    let x = i % side;
                    i /= side;
                    Real(x as f64 / n as f64)
                })
                .collect()
        })
        .collect();
    let mut cells = Vec::new();
    for b in 0..n.pow(dim as u32) {
        let mut rest = b;
        let corner: Vec<usize> = (0..dim)
            .map(|_| {
                let x = rest % n;
                rest /= n;
                x
            })
            .collect();
        for p in permutations(dim) {
            let mut at = corner.clone();
            let mut vertices = vec![index(&at)];
            for axis in p {
                at[axis] += 1;
                vertices.push(index(&at));
            }
            cells.push(Simplex::new(vertices).sorted());
        }
    }
    let complex = Complex::from_cells(Skeleton::new(cells));
    (complex, MeshCoords { dim, coords })
}

/// The reference simplex as a mesh.
fn standard(dim: usize) -> (Complex, MeshCoords<Real>) {
    let coords = (0..=dim)
        .map(|v| (0..dim).map(|axis| Real(if v == axis + 1 { 1.0 } else { 0.0 })).collect())
        .collect();
    (Complex::standard(dim), MeshCoords { dim, coords })
}

/// The edges of a simplex from its first vertex, one in each column.
fn jacobian(vertices: &[usize], coords: &MeshCoords<Real>) -> Mat {
    Mat::from_fn(coords.dim, vertices.len() - 1, |i, j| {
        coords.coords[vertices[j + 1]][i].0 - coords.coords[vertices[0]][i].0
    })
}

fn geometry_of(jacobian: &Mat) -> SimplexGeometry<Real> {
    let dim = jacobian.ncols();
    let metric = jacobian.transpose() * jacobian;
    let factorial = (1..=dim).product::<usize>() as f64;
    SimplexGeometry {
        dim,
        volume: Real(metric.determinant().sqrt() / factorial),
        inverse_metric: from_dense(&metric.try_inverse().unwrap()),
    }
}

fn standard_geometry(dim: usize) -> SimplexGeometry<Real> {
    geometry_of(&Mat::identity(dim, dim))
}

fn geometries(complex: &Complex, coords: &MeshCoords<Real>) -> Vec<SimplexGeometry<Real>> {
    let dim = complex.dim();
    (0..complex.nsimplices(dim))
        .map(|i| geometry_of(&jacobian(&complex.simplex_at(dim, i).vertices, coords)))
        .collect()
}

/// A rule that is exact for cubic polynomials.
fn order3(dim: usize) -> SimplexQuadRule<Real> {
    let (points, weights): (Vec<Vec<f64>>, Vec<f64>) = match dim {
        0 => (vec![vec![]], vec![1.0]),
        1 => (
            vec![vec![0.0], vec![0.5], vec![1.0]],
            vec![1.0 / 6.0, 4.0 / 6.0, 1.0 / 6.0],
        ),
        2 => (
            vec![
                vec![1.0 / 3.0, 1.0 / 3.0],
                vec![0.2, 0.2],
                vec![0.6, 0.2],
                vec![0.2, 0.6],
            ],
            vec![-27.0 / 48.0, 25.0 / 48.0, 25.0 / 48.0, 25.0 / 48.0],
        ),
        _ => {
            let s = 1.0 / 6.0;
            (
                vec![
                    vec![0.25, 0.25, 0.25],
                    vec![s, s, s],
                    vec![0.5, s, s],
                    vec![s, 0.5, s],
                    vec![s, s, 0.5],
                ],
                vec![-0.8, 0.45, 0.45, 0.45, 0.45],
            )
        }
    };
    SimplexQuadRule {
        dim,
        points: points.iter().map(|p| reals(p)).collect(),
        weights: reals(&weights),
    }
}

fn mass_galmat(complex: &Complex, geos: &Vec<SimplexGeometry<Real>>, grade: usize) -> Mat {
    let elmats = elmats_of(&HodgeMassElmat::new(complex.dim(), grade), geos);
    coo(&assemble_galmat(complex, grade, grade, &elmats))
}

fn inverse_blocks(
    complex: &Complex,
    grade: usize,
    lumped: &CooMatrix<Real>,
) -> (Vec<Vec<usize>>, Vec<DenseMatrix<Real>>) {
    let (dofs, blocks) = nc_lumped_mass_blocks(complex, grade, lumped).unwrap();
    let inverses = blocks
        .iter()
        .map(|block| {
            from_dense(&dense(block).cholesky().expect("positive definite").inverse())
        })
        .collect();
    (dofs, inverses)
}

fn lumped_inverse(complex: &Complex, grade: usize, lumped: &CooMatrix<Real>) -> Mat {
    let (dofs, inverses) = inverse_blocks(complex, grade, lumped);
    coo(&assemble_nc_lumped_mass_inverse_from_blocks(lumped.nrows(), &dofs, &inverses))
}

fn projected_inverse(complex: &Complex, grade: usize, lumped: &CooMatrix<Real>) -> Mat {
    let (dofs, inverses) = inverse_blocks(complex, grade, lumped);
    coo(&assemble_whitney_projected_sparse_inverse_from_blocks(complex, grade, &dofs, &inverses))
}

fn constant_weights(n: usize, value: f64) -> Vec<ScalarWeight<Real>> {
    vec![ScalarWeight { value: Real(value) }; n]
}

fn share_vertex(complex: &Complex, grade: usize, i: usize, j: usize) -> bool {
    let a = &complex.simplex_at(grade, i).vertices;
    let b = &complex.simplex_at(grade, j).vertices;
    a.iter().any(|v| b.contains(v))
}

fn assert_projection_shape(nsimps: usize, slots: usize, projection: &Mat) {
    assert_eq!(projection.nrows(), nsimps);
    assert_eq!(projection.ncols(), slots * nsimps);
    for i in 0..nsimps {
        let nonzeros: Vec<(usize, f64)> = projection
            .row(i)
            .iter()
            .enumerate()
            .filter(|(_, v)| v.abs() > 1e-12)
            .map(|(c, v)| (c, *v))
            .collect();
        assert_eq!(nonzeros.len(), slots);
        for (slot, (c, v)) in nonzeros.iter().enumerate() {
            assert_eq!(*c, slots * i + slot);
            assert!(close(*v, 1.0 / slots as f64, 1e-12, f64::EPSILON));
        }
    }
}

#[test]
fn codifdif0_is_laplace_beltrami() {
    let grade = 0;
    for dim in 1..=3 {
        let geo = standard_geometry(dim);
        let hodge_laplace = dense(&CodifDifElmat::new(dim, grade).eval(&geo));
        let laplace_beltrami = dense(&LaplaceBeltramiElmat::new(dim).eval(&geo));
        assert_close(&hodge_laplace, &laplace_beltrami, f64::EPSILON);
    }
}

#[test]
fn hodge_mass0_is_scalar_mass() {
    let grade = 0;
    for dim in 0..=3 {
        let geo = standard_geometry(dim);
        let hodge_mass = dense(&HodgeMassElmat::new(dim, grade).eval(&geo));
        let scalar_mass = dense(&ScalarMassElmat::new().eval(&geo));
        assert_close(&hodge_mass, &scalar_mass, f64::EPSILON);
    }
}

#[test]
fn hodge_mass_dim2_grade1() {
    let dim = 2;
    let grade = 1;
    let geo = standard_geometry(dim);
    let computed = dense(&HodgeMassElmat::new(dim, grade).eval(&geo));
    let expected = Mat::from_row_slice(
        3,
        3,
        &[1. / 3., 1. / 6., 0., 1. / 6., 1. / 3., 0., 0., 0., 1. / 6.],
    );
    assert_close(&computed, &expected, f64::EPSILON);
}

#[test]
fn dif_n2_k1() {
    let dim = 2;
    let grade = 1;
    let geo = standard_geometry(dim);
    let computed = dense(&DifElmat::new(dim, grade).eval(&geo));
    let expected = Mat::from_row_slice(
        3,
        3,
        &[-1. / 2., 1. / 3., 1. / 6., -1. / 2., 1. / 6., 1. / 3., 0., -1. / 6., 1. / 6.],
    );
    assert_close(&computed, &expected, f64::EPSILON);
}

#[test]
fn codif_n2_k1() {
    let dim = 2;
    let grade = 1;
    let geo = standard_geometry(dim);
    let computed = dense(&CodifElmat::new(dim, grade).eval(&geo));
    let expected = Mat::from_row_slice(
        3,
        3,
        &[-1. / 2., -1. / 2., 0., 1. / 3., 1. / 6., -1. / 6., 1. / 6., 1. / 3., 1. / 6.],
    );
    assert_close(&computed, &expected, f64::EPSILON);
}

#[test]
fn dif_dif_is_norm_of_difwhitneys() {
    for dim in 1..=3 {
        let geo = standard_geometry(dim);
        for grade in 0..dim {
            let difdif = dense(&CodifDifElmat::new(dim, grade).eval(&geo));
            let factorial = (1..=grade + 1).product::<usize>() as f64;
            let difwhitneys: Vec<Vec<f64>> = standard_subsimps(dim, grade)
                .iter()
                .map(|simplex| {
                    let coeffs: Vec<Real> = wedge_of(dim, &simplex.vertices);
                    coeffs.iter().map(|c| factorial * c.0).collect()
                })
                .collect();
            let n = difwhitneys.len();
            let inner = Mat::from_fn(n, n, |i, j| {
                let product: f64 =
                    difwhitneys[i].iter().zip(&difwhitneys[j]).map(|(a, b)| a * b).sum();
                geo.volume.0 * product
            });
            assert_close(&difdif, &inner, 4.0 * f64::EPSILON);
        }
    }
}

#[test]
fn weighted_hodge_mass_scales_with_constant_scalar_weight() {
    const W: f64 = 2.5;
    const RTOL: f64 = 1e-12;
    for dim in 1..=3 {
        let geo = standard_geometry(dim);
        for grade in 0..=dim {
            let provider = HodgeMassElmat::new(dim, grade);
            let unweighted = dense(&provider.eval(&geo));
            let weighted =
                dense(&provider.eval_with_coords(&geo, &ScalarWeight { value: Real(W) }));
            assert_close(&weighted, &(W * unweighted), RTOL);
        }
    }
}

#[test]
fn weighted_hodge_mass_uses_cell_average_for_affine_weight_with_barycentric_qr() {
    const RTOL: f64 = 1e-12;
    let dim = 2;
    let grade = 0;
    let geo = standard_geometry(dim);
    let expected_w_avg = 1.0 + 1.0 / (dim as f64 + 1.0);
    let provider = HodgeMassElmat::new(dim, grade);
    let unweighted = dense(&provider.eval(&geo));
    let rule: SimplexQuadRule<Real> = SimplexQuadRule::barycentric(dim);
    let values: Vec<Real> = rule.points.iter().map(|x| Real(1.0 + x[0].0)).collect();
    let weight = averaged_cell_weight(&rule, &values);
    let weighted = dense(&provider.eval_with_coords(&geo, &weight.weight));
    assert_close(&weighted, &(expected_w_avg * unweighted), RTOL);
}

#[test]
fn weighted_hodge_mass_matrix_identity_matches_unweighted() {
    const RTOL: f64 = 1e-12;
    let dim = 2;
    let grade = 1;
    let geo = standard_geometry(dim);
    let provider = HodgeMassElmat::new(dim, grade);
    let unweighted = dense(&provider.eval(&geo));
    let weight = from_dense(&Mat::identity(2, 2));
    let weighted = dense(&provider.eval_with_coords(&geo, &weight));
    assert_close(&weighted, &unweighted, RTOL);
}

#[test]
fn nc1_projection_times_embedding_is_identity() {
    for dim in [2, 3] {
        let projection = dense(&nc1_local_projection_matrix(dim));
        let embedding = dense(&nc1_local_embedding_matrix(dim));
        let identity = Mat::identity(projection.nrows(), projection.nrows());
        assert_close(&(projection * embedding), &identity, f64::EPSILON);
    }
}

#[test]
fn nc1_mass_matches_whitney_mass_via_embedding() {
    for dim in [2, 3] {
        let geo = standard_geometry(dim);
        let embedding = dense(&nc1_local_embedding_matrix(dim));
        let nc1_mass = dense(&Nc1MassElmat::new(dim).eval(&geo, &order3(dim)));
        let whitney_mass = dense(&HodgeMassElmat::new(dim, 1).eval(&geo));
        assert_close(
            &(embedding.transpose() * nc1_mass * embedding),
            &whitney_mass,
            4.0 * f64::EPSILON,
        );
    }
}

#[test]
fn operators_weighted_nc1_mass_scales_with_constant_scalar_weight() {
    const W: f64 = 2.5;
    const RTOL: f64 = 1e-12;
    for dim in [2, 3] {
        let geo = standard_geometry(dim);
        let rule = order3(dim);
        let unweighted = dense(&Nc1MassElmat::new(dim).eval(&geo, &rule));
        let weight = ScalarWeight { value: Real(W) };
        let weighted = dense(&Nc1MassElmat::new(dim).eval_with_coords(&geo, &rule, &weight));
        assert_close(&weighted, &(W * unweighted), RTOL);
    }
}

#[test]
fn weighted_nc1_mass_matrix_identity_matches_unweighted() {
    const RTOL: f64 = 1e-12;
    let dim = 3;
    let geo = standard_geometry(dim);
    let rule = order3(dim);
    let unweighted = dense(&Nc1MassElmat::new(dim).eval(&geo, &rule));
    let weight = from_dense(&Mat::identity(dim, dim));
    let weighted = dense(&Nc1MassElmat::new(dim).eval_with_coords(&geo, &rule, &weight));
    assert_close(&weighted, &unweighted, RTOL);
}

#[test]
fn nc1_lumped_mass_is_vertex_block_diagonal() {
    const RTOL: f64 = 1e-12;
    for dim in [2, 3] {
        let geo = standard_geometry(dim);
        let lumped = dense(&Nc1LumpedMassElmat::new(dim).eval(&geo));
        for i in 0..lumped.nrows() {
            for j in 0..lumped.ncols() {
                if nc1_local_dof_vertex(dim, i) != nc1_local_dof_vertex(dim, j) {
                    assert!(close(lumped[(i, j)], 0.0, RTOL, RTOL));
                }
            }
        }
    }
}

#[test]
fn weighted_nc1_lumped_mass_scales_with_constant_scalar_weight() {
    const W: f64 = 2.5;
    const RTOL: f64 = 1e-12;
    for dim in [2, 3] {
        let geo = standard_geometry(dim);
        let unweighted = dense(&Nc1LumpedMassElmat::new(dim).eval(&geo));
        let weight = ScalarWeight { value: Real(W) };
        let weighted = dense(&Nc1LumpedMassElmat::new(dim).eval_with_coords(&geo, &weight));
        assert_close(&weighted, &(W * unweighted), RTOL);
    }
}

#[test]
fn nc1_local_projected_sparse_inverse_matches_dense_formula() {
    const RTOL: f64 = 1e-12;
    for dim in [2, 3] {
        let lumped = dense(&Nc1LumpedMassElmat::new(dim).eval(&standard_geometry(dim)));
        let projection = dense(&nc1_local_projection_matrix(dim));
        let expected =
            &projection * lumped.clone().try_inverse().unwrap() * projection.transpose();
        let mut inverse = Mat::zeros(lumped.nrows(), lumped.ncols());
        for ivertex in 0..=dim {
            let dofs: Vec<usize> = (0..lumped.nrows())
                .filter(|&idof| nc1_local_dof_vertex(dim, idof) == ivertex)
                .collect();
            let block = Mat::from_fn(dofs.len(), dofs.len(), |i, j| lumped[(dofs[i], dofs[j])]);
            let inv_block = block
                .cholesky()
                .expect("NC1 lumped mass vertex block must be positive definite.")
                .inverse();
            for (iblock, &iglobal) in dofs.iter().enumerate() {
                for (jblock, &jglobal) in dofs.iter().enumerate() {
                    inverse[(iglobal, jglobal)] = inv_block[(iblock, jblock)];
                }
            }
        }
        let actual = &projection * inverse * projection.transpose();
        assert_close(&actual, &expected, RTOL);
    }
}

#[test]
fn providers_tell_their_grades() {
    let dif: DifElmat<Real> = DifElmat::new(3, 2);
    assert_eq!((dif.row_grade(), dif.col_grade()), (2, 1));
    let codif: CodifElmat<Real> = CodifElmat::new(3, 2);
    assert_eq!((codif.row_grade(), codif.col_grade()), (1, 2));
    let codifdif: CodifDifElmat<Real> = CodifDifElmat::new(3, 1);
    assert_eq!((codifdif.row_grade(), codifdif.col_grade()), (1, 1));
    assert_eq!(ScalarLumpedMassElmat.row_grade(), 0);
    assert_eq!(LaplaceBeltramiElmat::new(2).col_grade(), 0);
}

#[test]
fn scalar_lumped_mass_shares_the_volume() {
    let geo = standard_geometry(2);
    let lumped = dense(&ScalarLumpedMassElmat.eval(&geo));
    assert_close(&lumped, &(Mat::identity(3, 3) / 6.0), f64::EPSILON);
}

#[test]
fn scalar_elements_take_the_weight_of_the_cell() {
    let geo = standard_geometry(2);
    let weight = ScalarWeight { value: Real(3.0) };
    let mass = dense(&ScalarMassElmat::new().eval(&geo));
    let weighted = dense(&ScalarMassElmat::new().eval_with_coords(&geo, &weight));
    assert_close(&weighted, &(3.0 * mass), f64::EPSILON);
    let stiffness = dense(&LaplaceBeltramiElmat::new(2).eval(&geo));
    let weighted = dense(&LaplaceBeltramiElmat::new(2).eval_with_coords(&geo, &weight));
    assert_close(&weighted, &(3.0 * stiffness), f64::EPSILON);
}

#[test]
fn wedge_of_two_differentials_on_a_triangle() {
    let coeffs: Vec<Real> = wedge_of(2, &[0, 1]);
    assert_eq!(floats(&coeffs), vec![1.0]);
    let coeffs: Vec<Real> = wedge_of(2, &[1, 2]);
    assert_eq!(floats(&coeffs), vec![1.0]);
    let coeffs: Vec<Real> = wedge_of(2, &[0, 2]);
    assert_eq!(floats(&coeffs), vec![-1.0]);
}

#[test]
fn slots_belong_to_the_vertices_of_their_simplex() {
    let vertices: Vec<usize> = (0..6).map(|dof| nc_local_dof_vertex(2, 1, dof)).collect();
    assert_eq!(vertices, vec![0, 1, 0, 2, 1, 2]);
}

#[test]
fn nc1_projection_and_embedding_are_inverses_on_triangle_meshes() {
    let (topology, _) = cartesian(2, 2);
    let projection = coo(&assemble_nc1_to_whitney_projection_galmat(&topology));
    let embedding = coo(&assemble_whitney_to_nc1_embedding_galmat(&topology));
    let nedges = topology.nsimplices(1);
    assert_projection_shape(nedges, 2, &projection);
    assert_close(&(projection * embedding), &Mat::identity(nedges, nedges), 1e-12);
}

#[test]
fn nc1_projection_and_embedding_are_inverses_on_tetra_meshes() {
    let (topology, _) = cartesian(3, 1);
    let projection = coo(&assemble_nc1_to_whitney_projection_galmat(&topology));
    let embedding = coo(&assemble_whitney_to_nc1_embedding_galmat(&topology));
    let nedges = topology.nsimplices(1);
    assert_projection_shape(nedges, 2, &projection);
    assert_close(&(projection * embedding), &Mat::identity(nedges, nedges), 1e-12);
}

fn assert_nc1_whitney_consistency(dim: usize, n: usize) {
    let (topology, coords) = cartesian(dim, n);
    let geos = geometries(&topology, &coords);
    let nc1_mass = coo(&assemble_nc1_mass_galmat(&topology, &geos, &order3(dim)));
    let embedding = coo(&assemble_whitney_to_nc1_embedding_galmat(&topology));
    let whitney_mass = mass_galmat(&topology, &geos, 1);
    assert_close(&(embedding.transpose() * nc1_mass * &embedding), &whitney_mass, 1e-12);
}

#[test]
fn nc1_mass_matches_whitney_mass_on_triangle_meshes() {
    assert_nc1_whitney_consistency(2, 2);
}

#[test]
fn nc1_mass_matches_whitney_mass_on_tetra_meshes() {
    assert_nc1_whitney_consistency(3, 1);
}

#[test]
fn weighted_nc1_mass_matches_whitney_mass_for_constant_scalar_weight() {
    for (dim, n) in [(2, 2), (3, 1)] {
        let (topology, coords) = cartesian(dim, n);
        let geos = geometries(&topology, &coords);
        let weights = constant_weights(geos.len(), 2.5);
        let nc1_mass =
            coo(&assemble_nc1_mass_galmat_weighted(&topology, &geos, &order3(dim), &weights));
        let embedding = coo(&assemble_whitney_to_nc1_embedding_galmat(&topology));
        let elmats = weighted_elmats_of(&HodgeMassElmat::new(dim, 1), &geos, &weights);
        let whitney_mass = coo(&assemble_galmat(&topology, 1, 1, &elmats));
        assert_close(&(embedding.transpose() * nc1_mass * &embedding), &whitney_mass, 1e-12);
    }
}

#[test]
fn weighted_nc1_mass_matches_whitney_mass_for_identity_weight_in_3d() {
    let (topology, coords) = cartesian(3, 1);
    let geos = geometries(&topology, &coords);
    let weights: Vec<DenseMatrix<Real>> =
        geos.iter().map(|_| from_dense(&Mat::identity(3, 3))).collect();
    let nc1_mass = coo(&assemble_nc1_mass_galmat_weighted(&topology, &geos, &order3(3), &weights));
    let embedding = coo(&assemble_whitney_to_nc1_embedding_galmat(&topology));
    let elmats = weighted_elmats_of(&HodgeMassElmat::new(3, 1), &geos, &weights);
    let whitney_mass = coo(&assemble_galmat(&topology, 1, 1, &elmats));
    assert_close(&(embedding.transpose() * nc1_mass * &embedding), &whitney_mass, 1e-12);
}

#[test]
fn nc1_weighted_nc1_mass_scales_with_constant_scalar_weight() {
    for (dim, n) in [(2, 2), (3, 1)] {
        let (topology, coords) = cartesian(dim, n);
        let geos = geometries(&topology, &coords);
        let weights = constant_weights(geos.len(), 2.5);
        let unweighted = coo(&assemble_nc1_mass_galmat(&topology, &geos, &order3(dim)));
        let weighted =
            coo(&assemble_nc1_mass_galmat_weighted(&topology, &geos, &order3(dim), &weights));
        assert_close(&weighted, &(2.5 * unweighted), 1e-12);
    }
}

#[test]
fn weighted_nc1_mass_identity_weight_matches_unweighted_in_3d() {
    let (topology, coords) = cartesian(3, 1);
    let geos = geometries(&topology, &coords);
    let weights: Vec<DenseMatrix<Real>> =
        geos.iter().map(|_| from_dense(&Mat::identity(3, 3))).collect();
    let unweighted = coo(&assemble_nc1_mass_galmat(&topology, &geos, &order3(3)));
    let weighted = coo(&assemble_nc1_mass_galmat_weighted(&topology, &geos, &order3(3), &weights));
    assert_close(&weighted, &unweighted, 1e-12);
}

fn assert_nc1_lumped_inverse(dim: usize, n: usize) {
    let (topology, coords) = cartesian(dim, n);
    let geos = geometries(&topology, &coords);
    let lumped = assemble_nc1_lumped_mass_galmat(&topology, &geos);
    let inverse = lumped_inverse(&topology, 1, &lumped);
    assert_close(&inverse, &coo(&lumped).try_inverse().unwrap(), 1e-12);
}

#[test]
fn nc1_lumped_mass_inverse_matches_dense_formula_on_triangle_meshes() {
    assert_nc1_lumped_inverse(2, 2);
}

#[test]
fn nc1_lumped_mass_inverse_matches_dense_formula_on_tetra_meshes() {
    assert_nc1_lumped_inverse(3, 1);
}

#[test]
fn weighted_nc1_lumped_mass_inverse_matches_dense_formula_for_constant_scalar_weight() {
    for (dim, n) in [(2, 2), (3, 1)] {
        let (topology, coords) = cartesian(dim, n);
        let geos = geometries(&topology, &coords);
        let weights = constant_weights(geos.len(), 2.5);
        let lumped = assemble_nc1_lumped_mass_galmat_weighted(&topology, &geos, &weights);
        let inverse = lumped_inverse(&topology, 1, &lumped);
        assert_close(&inverse, &coo(&lumped).try_inverse().unwrap(), 1e-12);
    }
}

fn assert_projected_inverse(dim: usize, n: usize) {
    let (topology, coords) = cartesian(dim, n);
    let geos = geometries(&topology, &coords);
    let projection = coo(&assemble_nc1_to_whitney_projection_galmat(&topology));
    let lumped = assemble_nc1_lumped_mass_galmat(&topology, &geos);
    let projected = projected_inverse(&topology, 1, &lumped);
    let expected = &projection * coo(&lumped).try_inverse().unwrap() * projection.transpose();
    assert_close(&projected, &expected, 1e-12);
}

#[test]
fn whitney_projected_sparse_inverse_matches_dense_formula_on_triangle_meshes() {
    assert_projected_inverse(2, 2);
}

#[test]
fn whitney_projected_sparse_inverse_matches_dense_formula_on_tetra_meshes() {
    assert_projected_inverse(3, 1);
}

fn assert_symmetric_and_local(topology: &Complex, grade: usize, projected: &Mat) {
    assert_close(projected, &projected.transpose(), 1e-12);
    for i in 0..projected.nrows() {
        assert!(projected[(i, i)] > 0.0);
        for j in 0..projected.ncols() {
            if !share_vertex(topology, grade, i, j) {
                assert!(projected[(i, j)].abs() <= 1e-12);
            }
        }
    }
}

#[test]
fn projected_sparse_inverse_is_symmetric_positive_diagonal_and_vertex_local() {
    for (dim, n) in [(2, 2), (3, 1)] {
        let (topology, coords) = cartesian(dim, n);
        let geos = geometries(&topology, &coords);
        let lumped = assemble_nc1_lumped_mass_galmat(&topology, &geos);
        assert_symmetric_and_local(&topology, 1, &projected_inverse(&topology, 1, &lumped));
    }
}

#[test]
fn weighted_projected_sparse_inverse_scales_with_reciprocal_constant_scalar_weight() {
    for (dim, n) in [(2, 2), (3, 1)] {
        let (topology, coords) = cartesian(dim, n);
        let geos = geometries(&topology, &coords);
        let weights = constant_weights(geos.len(), 2.5);
        let unweighted =
            projected_inverse(&topology, 1, &assemble_nc1_lumped_mass_galmat(&topology, &geos));
        let weighted = projected_inverse(
            &topology,
            1,
            &assemble_nc1_lumped_mass_galmat_weighted(&topology, &geos, &weights),
        );
        assert_close(&weighted, &(unweighted / 2.5), 1e-12);
    }
}

#[test]
fn nc2_projection_and_embedding_are_inverses_on_tetra_meshes() {
    let (topology, _) = cartesian(3, 1);
    let projection = coo(&assemble_nc2_to_whitney_projection_galmat(&topology));
    let embedding = coo(&assemble_whitney_to_nc2_embedding_galmat(&topology));
    let nfaces = topology.nsimplices(2);
    assert_projection_shape(nfaces, 3, &projection);
    assert_close(&(projection * embedding), &Mat::identity(nfaces, nfaces), 1e-12);
}

#[test]
fn nc2_mass_matches_whitney_mass_on_tetra_meshes() {
    let (topology, coords) = cartesian(3, 1);
    let geos = geometries(&topology, &coords);
    let nc2_mass = coo(&assemble_nc2_mass_galmat(&topology, &geos, &order3(3)));
    let embedding = coo(&assemble_whitney_to_nc2_embedding_galmat(&topology));
    let whitney_mass = mass_galmat(&topology, &geos, 2);
    assert_close(&(embedding.transpose() * nc2_mass * &embedding), &whitney_mass, 1e-12);
}

#[test]
fn weighted_nc2_mass_matches_whitney_mass_for_constant_scalar_weight() {
    let (topology, coords) = cartesian(3, 1);
    let geos = geometries(&topology, &coords);
    let weights = constant_weights(geos.len(), 2.5);
    let nc2_mass = coo(&assemble_nc2_mass_galmat_weighted(&topology, &geos, &order3(3), &weights));
    let embedding = coo(&assemble_whitney_to_nc2_embedding_galmat(&topology));
    let elmats = weighted_elmats_of(&HodgeMassElmat::new(3, 2), &geos, &weights);
    let whitney_mass = coo(&assemble_galmat(&topology, 2, 2, &elmats));
    assert_close(&(embedding.transpose() * nc2_mass * &embedding), &whitney_mass, 1e-12);
}

#[test]
fn nc2_lumped_mass_inverse_matches_dense_formula_on_tetra_meshes() {
    let (topology, coords) = cartesian(3, 1);
    let geos = geometries(&topology, &coords);
    let lumped = assemble_nc2_lumped_mass_galmat(&topology, &geos);
    let inverse = lumped_inverse(&topology, 2, &lumped);
    assert_close(&inverse, &coo(&lumped).try_inverse().unwrap(), 1e-12);
}

#[test]
fn weighted_nc2_lumped_mass_inverse_scales_with_reciprocal_constant_weight() {
    let (topology, coords) = cartesian(3, 1);
    let geos = geometries(&topology, &coords);
    let weights = constant_weights(geos.len(), 2.5);
    let unweighted =
        lumped_inverse(&topology, 2, &assemble_nc2_lumped_mass_galmat(&topology, &geos));
    let weighted = lumped_inverse(
        &topology,
        2,
        &assemble_nc2_lumped_mass_galmat_weighted(&topology, &geos, &weights),
    );
    assert_close(&weighted, &(unweighted / 2.5), 1e-12);
}

#[test]
fn whitney_2form_projected_sparse_inverse_matches_dense_formula_on_tetra_meshes() {
    let (topology, coords) = cartesian(3, 1);
    let geos = geometries(&topology, &coords);
    let projection = coo(&assemble_nc2_to_whitney_projection_galmat(&topology));
    let lumped = assemble_nc2_lumped_mass_galmat(&topology, &geos);
    let projected = projected_inverse(&topology, 2, &lumped);
    let expected = &projection * coo(&lumped).try_inverse().unwrap() * projection.transpose();
    assert_close(&projected, &expected, 1e-12);
}

#[test]
fn weighted_whitney_2form_projected_sparse_inverse_scales_with_reciprocal_constant_weight() {
    let (topology, coords) = cartesian(3, 1);
    let geos = geometries(&topology, &coords);
    let weights = constant_weights(geos.len(), 2.5);
    let unweighted =
        projected_inverse(&topology, 2, &assemble_nc2_lumped_mass_galmat(&topology, &geos));
    let weighted = projected_inverse(
        &topology,
        2,
        &assemble_nc2_lumped_mass_galmat_weighted(&topology, &geos, &weights),
    );
    assert_close(&weighted, &(unweighted / 2.5), 1e-12);
}

#[test]
fn projected_2form_sparse_inverse_is_symmetric_positive_and_vertex_local() {
    let (topology, coords) = cartesian(3, 1);
    let geos = geometries(&topology, &coords);
    let lumped = assemble_nc2_lumped_mass_galmat(&topology, &geos);
    assert_symmetric_and_local(&topology, 2, &projected_inverse(&topology, 2, &lumped));
}

#[test]
fn generic_nc_lumped_mass_inverse_matches_dense_formula_on_4_simplex() {
    let (topology, coords) = standard(4);
    let geos = geometries(&topology, &coords);
    for grade in 0..topology.dim() {
        let lumped = assemble_nc_lumped_mass_galmat(&topology, grade, &geos);
        let inverse = lumped_inverse(&topology, grade, &lumped);
        assert_close(&inverse, &coo(&lumped).try_inverse().unwrap(), 1e-12);
    }
}

#[test]
fn generic_whitney_projected_sparse_inverse_matches_dense_formula_on_4_simplex() {
    let (topology, coords) = standard(4);
    let geos = geometries(&topology, &coords);
    for grade in 0..topology.dim() {
        let projection = coo(&assemble_nc_to_whitney_projection_galmat(&topology, grade));
        let lumped = assemble_nc_lumped_mass_galmat(&topology, grade, &geos);
        let projected = projected_inverse(&topology, grade, &lumped);
        let expected = &projection * coo(&lumped).try_inverse().unwrap() * projection.transpose();
        assert_close(&projected, &expected, 1e-12);
    }
}

#[test]
fn nc1_and_nc2_lumping_wrappers_support_4d() {
    let (topology, coords) = standard(4);
    let geos = geometries(&topology, &coords);

    let nc1_lumped = assemble_nc1_lumped_mass_galmat(&topology, &geos);
    let nc1_generic = assemble_nc_lumped_mass_galmat(&topology, 1, &geos);
    assert_close(&coo(&nc1_lumped), &coo(&nc1_generic), 1e-12);
    assert_close(
        &lumped_inverse(&topology, 1, &nc1_lumped),
        &lumped_inverse(&topology, 1, &nc1_generic),
        1e-12,
    );

    let nc2_lumped = assemble_nc2_lumped_mass_galmat(&topology, &geos);
    let nc2_generic = assemble_nc_lumped_mass_galmat(&topology, 2, &geos);
    assert_close(&coo(&nc2_lumped), &coo(&nc2_generic), 1e-12);
    assert_close(
        &lumped_inverse(&topology, 2, &nc2_lumped),
        &lumped_inverse(&topology, 2, &nc2_generic),
        1e-12,
    );

    let projection = coo(&assemble_nc2_to_whitney_projection_galmat(&topology));
    let embedding = coo(&assemble_whitney_to_nc2_embedding_galmat(&topology));
    let ntriangles = topology.nsimplices(2);
    assert_eq!(projection.nrows(), ntriangles);
    assert_eq!(projection.ncols(), 3 * ntriangles);
    assert_close(&(projection * embedding), &Mat::identity(ntriangles, ntriangles), 1e-12);
}

#[test]
fn weighted_generic_nc_lumped_inverse_scales_with_reciprocal_constant_weight_on_4_simplex() {
    let (topology, coords) = standard(4);
    let geos = geometries(&topology, &coords);
    let weights = constant_weights(geos.len(), 2.5);
    for grade in [1, 2] {
        let lumped = assemble_nc_lumped_mass_galmat(&topology, grade, &geos);
        let weighted = assemble_nc_lumped_mass_galmat_weighted(&topology, grade, &geos, &weights);
        assert_close(&coo(&weighted), &(2.5 * coo(&lumped)), 1e-12);
        assert_close(
            &lumped_inverse(&topology, grade, &weighted),
            &(lumped_inverse(&topology, grade, &lumped) / 2.5),
            1e-12,
        );
    }
}

#[test]
fn projected_sparse_inverse_is_vertex_local_for_4d_1forms_and_2forms() {
    let (topology, coords) = standard(4);
    let geos = geometries(&topology, &coords);
    for grade in [1, 2] {
        let lumped = assemble_nc_lumped_mass_galmat(&topology, grade, &geos);
        assert_symmetric_and_local(&topology, grade, &projected_inverse(&topology, grade, &lumped));
    }
}
