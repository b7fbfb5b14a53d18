//! Convergence of the Hodge-Laplacian with sparse inverses of the mass.

use crate::assemble::dofs::indices_to_flags;
use crate::assemble::galerkin::GalMat;
use crate::assemble::symmetry_law::only_zero_is_zero;
use crate::linalg::algebra::{
    add_sparse, lumped_diag, magnitude, magnitude_spec, product, product_terms, reciprocal,
    reciprocal_spec, row_dot, row_total, zero_vector, DIAGONAL_RESOLUTION,
};
use crate::linalg::blocks::block_entries;
use crate::linalg::csr::{compressed, CsrMatrix};
use crate::linalg::ring::commutative_ring;
use crate::linalg::scalar::Scalar;
use crate::linalg::sparse::{restricted, unset_before, CooMatrix};
use crate::problems::elimination::{all_values, copy_of, part_of, with_prescribed, MixedSystem};
use crate::problems::mixed_galmats::MixedGalmats;
use crate::sparse_inverse_law::{
    acts_shifted, adds_block, block_is_added, inverts_row_sums, is_shifted_source,
    lemma_restricted_within, row_sum_inverse_inverts, schur_operator_acts, shifts_second,
    source_belongs_to_solution, squared_shift_shifts,
};
use crate::text::{decimal, owned, push_decimal};
use crate::topology::complex::Complex;
use crate::topology::simplex::Dim;
use crate::fe::{
    elmats_on, energy, error_values_fit, fe_l2_error, graph_error, hd_error, l2_error, l2_norm,
};
use crate::io::fields::{Cochain, MeshCoords};
use crate::linalg::vectors::{difference_of, minus, multiple, multiplied};
use crate::operators::elements::SimplexGeometry;
use crate::operators::weights::SimplexQuadRule;
use crate::whitney::{cochain_dif, is_derivative};
use vstd::prelude::*;
use vstd::string::*;

verus! {

/// Where the results go, and how often the mesh is refined.
#[derive(Debug, Clone)]
pub struct SparseInverseHodgeValidationConfig {
    pub output_dir: String,
    pub max_refinement: u32,
}

impl Default for SparseInverseHodgeValidationConfig {
    fn default() -> (config: Self)
        ensures
            config.output_dir@ == "out/examples/hodge_laplace_2form_nc1_lumping"@,
            config.max_refinement == 4,
    {
        SparseInverseHodgeValidationConfig {
            output_dir: owned("out/examples/hodge_laplace_2form_nc1_lumping"),
            max_refinement: 4,
        }
    }
}

/// The shift of the operator of the study.
pub fn kappa<T: Scalar>() -> (shift: T)
    ensures
        shift == T::zero_spec(),
{
    T::zero()
}

/// The square of the product of three sines.
pub open spec fn scalar_factor_spec<T: Scalar>(sines: Seq<T>) -> T {
    sines[0].times_spec(sines[0]).times_spec(sines[1].times_spec(sines[1])).times_spec(
        sines[2].times_spec(sines[2]),
    )
}

/// The square of the product of three sines.
pub fn scalar_factor<T: Scalar>(sines: [T; 3]) -> (r: T)
    ensures
        r == scalar_factor_spec(sines@),
{
    sines[0].times(sines[0]).times(sines[1].times(sines[1])).times(sines[2].times(sines[2]))
}

/// The Hodge-Laplacian of the square of the product of three sines, with the cosines of the
/// double angles.
pub open spec fn laplacian_factor<T: Scalar>(sines: Seq<T>, double_cosines: Seq<T>) -> T {
    let sx2 = sines[0].times_spec(sines[0]);
    let sy2 = sines[1].times_spec(sines[1]);
    let sz2 = sines[2].times_spec(sines[2]);
    T::from_count_spec(2).negated_spec().times_spec(
        double_cosines[0].times_spec(sy2).times_spec(sz2).plus_spec(
            double_cosines[1].times_spec(sx2).times_spec(sz2),
        ).plus_spec(double_cosines[2].times_spec(sx2).times_spec(sy2)),
    )
}

/// The Hodge-Laplacian of the square of the product of three sines.
pub fn scalar_factor_hodge_laplacian<T: Scalar>(sines: [T; 3], double_cosines: [T; 3]) -> (r: T)
    ensures
        r == laplacian_factor(sines@, double_cosines@),
{
    let sx2 = sines[0].times(sines[0]);
    let sy2 = sines[1].times(sines[1]);
    let sz2 = sines[2].times(sines[2]);
    let sum = double_cosines[0].times(sy2).times(sz2).plus(
        double_cosines[1].times(sx2).times(sz2),
    ).plus(double_cosines[2].times(sx2).times(sy2));
    T::from_count(2).negated().times(sum)
}

/// The coefficients of a factor in the direction of the solution.
pub open spec fn in_direction<T: Scalar>(scale: T) -> Seq<T> {
    seq![
        T::one_spec().times_spec(scale),
        T::from_count_spec(2).times_spec(scale),
        T::one_spec().negated_spec().times_spec(scale),
    ]
}

fn directed<T: Scalar>(scale: T) -> (coeffs: [T; 3])
    ensures
        coeffs@ == in_direction(scale),
{
    let coeffs = [
        T::one().times(scale),
        T::from_count(2).times(scale),
        T::one().negated().times(scale),
    ];
    proof {
        assert(coeffs@ =~= in_direction(scale));
    }
    coeffs
}

/// The exact solution.
pub fn exact_solution_coeffs<T: Scalar>(sines: [T; 3]) -> (coeffs: [T; 3])
    ensures
        coeffs@ == in_direction(scalar_factor_spec(sines@)),
{
    directed(scalar_factor(sines))
}

/// The exact source of the shifted problem.
pub fn exact_shifted_source_coeffs<T: Scalar>(
    sines: [T; 3],
    double_cosines: [T; 3],
    kappa: T,
) -> (coeffs: [T; 3])
    ensures
        coeffs@ == in_direction(
            laplacian_factor(sines@, double_cosines@).plus_spec(
                kappa.times_spec(kappa).times_spec(scalar_factor_spec(sines@)),
            ),
        ),
        commutative_ring::<T>() ==> is_shifted_source(
            coeffs@,
            in_direction(scalar_factor_spec(sines@)),
            in_direction(laplacian_factor(sines@, double_cosines@)),
            kappa,
        ),
{
    proof {
        if commutative_ring::<T>() {
            source_belongs_to_solution(
                scalar_factor_spec(sines@),
                laplacian_factor(sines@, double_cosines@),
                kappa,
            );
        }
    }
    let scale = scalar_factor_hodge_laplacian(sines, double_cosines).plus(
        kappa.times(kappa).times(scalar_factor(sines)),
    );
    directed(scale)
}

/// The coefficient of the derivative of the exact solution, with the sines of the double angles.
pub open spec fn dif_coeff<T: Scalar>(sines: Seq<T>, double_sines: Seq<T>) -> T {
    let sx2 = sines[0].times_spec(sines[0]);
    let sy2 = sines[1].times_spec(sines[1]);
    let sz2 = sines[2].times_spec(sines[2]);
    let dx = double_sines[0].times_spec(sy2).times_spec(sz2);
    let dy = sx2.times_spec(double_sines[1]).times_spec(sz2);
    let dz = sx2.times_spec(sy2).times_spec(double_sines[2]);
    T::one_spec().negated_spec().times_spec(dx).minus_spec(
        T::from_count_spec(2).times_spec(dy),
    ).plus_spec(T::one_spec().times_spec(dz))
}

/// The coefficient of the derivative of the exact solution.
pub fn exact_dif_coeff<T: Scalar>(sines: [T; 3], double_sines: [T; 3]) -> (r: T)
    ensures
        r == dif_coeff(sines@, double_sines@),
{
    let sx2 = sines[0].times(sines[0]);
    let sy2 = sines[1].times(sines[1]);
    let sz2 = sines[2].times(sines[2]);
    let dx = double_sines[0].times(sy2).times(sz2);
    let dy = sx2.times(double_sines[1]).times(sz2);
    let dz = sx2.times(sy2).times(double_sines[2]);
    T::one().negated().times(dx).minus(T::from_count(2).times(dy)).plus(T::one().times(dz))
}

/// For each simplex of a dimension whether it lies on the boundary.
pub open spec fn boundary_flags(topology: Complex, grade: int, flags: Seq<bool>) -> bool {
    &&& flags.len() == topology.simplices(grade).len()
    &&& forall|i: int|
        0 <= i < flags.len() ==> #[trigger] flags[i] == boundary_indices(topology, grade).contains(
            i as usize,
        )
}

/// The simplices of a dimension on the boundary.
pub open spec fn boundary_indices(topology: Complex, grade: int) -> Seq<usize> {
    if grade >= topology.dimension() {
        Seq::empty()
    } else if grade == topology.dimension() - 1 {
        topology.boundary_facet_kidxs()
    } else {
        crate::topology::skeleton::unique(topology.boundary_facet_subsimplices(grade).flatten())
    }
}

/// For each simplex of a dimension whether it lies on the boundary.
pub fn boundary_dofs(topology: &Complex, grade: Dim) -> (flags: Vec<bool>)
    requires
        topology.wf(),
        grade <= topology.dimension(),
    ensures
        boundary_flags(*topology, grade as int, flags@),
{
    let simplices = topology.boundary_subcomplex_simplices(grade);
    let ghost indices = boundary_indices(*topology, grade as int);
    let mut list: Vec<usize> = Vec::new();
    let mut i: usize = 0;
    while i < simplices.len()
        invariant
            i <= simplices@.len(),
            forall|k: int|
                0 <= k < simplices@.len() ==> (#[trigger] simplices@[k]).kidx
                    < topology.simplices(grade as int).len(),
            list@.len() == i,
            forall|k: int| 0 <= k < i ==> #[trigger] list@[k] == simplices@[k].kidx,
        decreases simplices@.len() - i,
    {
        list.push(simplices[i].kidx);
        i = i + 1;
    }
    let n: usize = topology.nsimplices(grade);
    proof {
        assert forall|k: int| 0 <= k < list@.len() implies (#[trigger] list@[k]) < n by {
            assert(simplices@[k].kidx < n);
        }
        assert(list@ =~= indices);
    }
    indices_to_flags(list.as_slice(), n)
}

fn reduced_square_csr<T: Scalar>(galmat: &GalMat<T>, dropped: &[bool]) -> (m: CsrMatrix<T>)
    requires
        galmat.wf(),
        galmat.rows() == dropped@.len(),
        galmat.cols() == dropped@.len(),
    ensures
        m.wf(),
        m.rows() == unset_before(dropped@, dropped@.len() as int),
        m.cols() == unset_before(dropped@, dropped@.len() as int),
        m.entries() == compressed(restricted(galmat.entries(), dropped@, dropped@)),
{
    CsrMatrix::from_coo(&galmat.restrict(dropped, dropped))
}

fn reduced_rectangular_csr<T: Scalar>(
    galmat: &GalMat<T>,
    dropped_rows: &[bool],
    dropped_cols: &[bool],
) -> (m: CsrMatrix<T>)
    requires
        galmat.wf(),
        galmat.rows() == dropped_rows@.len(),
        galmat.cols() == dropped_cols@.len(),
    ensures
        m.wf(),
        m.rows() == unset_before(dropped_rows@, dropped_rows@.len() as int),
        m.cols() == unset_before(dropped_cols@, dropped_cols@.len() as int),
        m.entries() == compressed(restricted(galmat.entries(), dropped_rows@, dropped_cols@)),
{
    CsrMatrix::from_coo(&galmat.restrict(dropped_rows, dropped_cols))
}

/// The inverses of the sums of the first rows, but for negligible sums.
pub open spec fn inverse_row_sums<T: Scalar>(entries: Seq<(usize, usize, T)>, n: int) -> Seq<
    (usize, usize, T),
>
    decreases n,
{
    if n <= 0 {
        Seq::empty()
    } else {
        let before = inverse_row_sums(entries, n - 1);
        let sum = row_total(entries, n - 1);
        if reciprocal_spec::<T>(DIAGONAL_RESOLUTION as nat).is_below_spec(magnitude_spec(sum)) {
            before.push(((n - 1) as usize, (n - 1) as usize, T::one_spec().over_spec(sum)))
        } else {
            before
        }
    }
}

/// The inverse of the matrix with the row sums on the diagonal.
pub fn row_sum_lumped_inverse<T: Scalar>(mass: &CsrMatrix<T>) -> (m: CsrMatrix<T>)
    requires
        mass.wf(),
        mass.rows() == mass.cols(),
    ensures
        m.wf(),
        m.rows() == mass.rows(),
        m.cols() == mass.rows(),
        m.entries() == compressed(inverse_row_sums(mass.entries(), mass.rows() as int)),
        commutative_ring::<T>() ==> inverts_row_sums(m.entries(), mass.entries(), mass.rows()),
{
    let sums = lumped_diag(mass);
    let n: usize = mass.nrows();
    proof {
        if commutative_ring::<T>() {
            row_sum_inverse_inverts(mass.entries(), mass.rows());
        }
    }
    let eps: T = reciprocal(DIAGONAL_RESOLUTION);
    let mut diagonal: CooMatrix<T> = CooMatrix::zeros(n, n);
    let mut i: usize = 0;
    while i < n
        invariant
            i <= n,
            n == mass.rows(),
            sums@ == Seq::new(mass.rows(), |r: int| row_total(mass.entries(), r)),
            eps == reciprocal_spec::<T>(DIAGONAL_RESOLUTION as nat),
            diagonal.wf(),
            diagonal.rows() == n,
            diagonal.cols() == n,
            diagonal.entries() =~= inverse_row_sums(mass.entries(), i as int),
        decreases n - i,
    {
        let sum = sums[i];
        if eps.is_below(magnitude(sum)) {
            diagonal.push(i, i, T::one().over(sum));
        }
        i = i + 1;
    }
    CsrMatrix::from_coo(&diagonal)
}

/// A mixed problem with both unknowns and a derivative on the second one.
pub open spec fn is_full<T: Scalar>(
    galmats: MixedGalmats<T>,
    sigma_bc: Seq<bool>,
    u_bc: Seq<bool>,
) -> bool {
    &&& galmats.wf()
    &&& galmats.mass_sigma.rows() > 0
    &&& galmats.codifdif_u.rows() == galmats.mass_u.rows()
    &&& sigma_bc.len() == galmats.mass_sigma.rows()
    &&& u_bc.len() == galmats.mass_u.rows()
}

/// Every entry with a factor in front, stored zeros too; none where the factor is zero.
pub open spec fn scaled_entries<T: Scalar>(entries: Seq<(usize, usize, T)>, scale: T) -> Seq<
    (usize, usize, T),
> {
    if scale.is_zero_spec() {
        Seq::empty()
    } else {
        multiplied(scale, entries)
    }
}

/// The matrix times a factor, empty where the factor is zero.
pub fn scale_sparse<T: Scalar>(matrix: &CsrMatrix<T>, scale: T) -> (m: CsrMatrix<T>)
    requires
        matrix.wf(),
    ensures
        m.wf(),
        m.rows() == matrix.rows(),
        m.cols() == matrix.cols(),
        m.entries() == scaled_entries(matrix.entries(), scale),
{
    if scale.is_zero() {
        CsrMatrix::from_row_major(matrix.nrows(), matrix.ncols(), Vec::new())
    } else {
        multiple(scale, matrix)
    }
}

/// The entries of the operator of the second unknown alone, on the free dofs, with an inverse
/// for the first one.
pub open spec fn schur_operator_entries<T: Scalar>(
    galmats: MixedGalmats<T>,
    sigma_bc: Seq<bool>,
    u_bc: Seq<bool>,
    inverse: Seq<(usize, usize, T)>,
    kappa: T,
) -> Seq<(usize, usize, T)> {
    let mass_u = compressed(restricted(galmats.mass_u.entries(), u_bc, u_bc));
    let codifdif_u = compressed(restricted(galmats.codifdif_u.entries(), u_bc, u_bc));
    let dif_sigma = compressed(restricted(galmats.dif_sigma.entries(), u_bc, sigma_bc));
    let codif_u = compressed(restricted(galmats.codif_u.entries(), sigma_bc, u_bc));
    let shifted = compressed(codifdif_u + scaled_entries(mass_u, kappa.times_spec(kappa)));
    let schur = compressed(
        product_terms(compressed(product_terms(dif_sigma, inverse)), codif_u),
    );
    compressed(shifted + schur)
}

/// An operator on the free dofs of the second unknown.
pub open spec fn is_schur_operator<T: Scalar>(
    m: CsrMatrix<T>,
    galmats: MixedGalmats<T>,
    sigma_bc: Seq<bool>,
    u_bc: Seq<bool>,
    inverse: Seq<(usize, usize, T)>,
    kappa: T,
) -> bool {
    &&& m.wf()
    &&& m.rows() == unset_before(u_bc, u_bc.len() as int)
    &&& m.cols() == unset_before(u_bc, u_bc.len() as int)
    &&& m.entries() == schur_operator_entries(galmats, sigma_bc, u_bc, inverse, kappa)
}

/// The operator of the second unknown alone, on the free dofs.
pub fn assemble_reduced_schur_operator<T: Scalar>(
    galmats: &MixedGalmats<T>,
    sigma_bc: &[bool],
    u_bc: &[bool],
    sigma_inverse: &CsrMatrix<T>,
    kappa: T,
) -> (operator: CsrMatrix<T>)
    requires
        is_full(*galmats, sigma_bc@, u_bc@),
        sigma_inverse.wf(),
        sigma_inverse.rows() == unset_before(sigma_bc@, sigma_bc@.len() as int),
        sigma_inverse.cols() == unset_before(sigma_bc@, sigma_bc@.len() as int),
    ensures
        is_schur_operator(
            operator,
            *galmats,
            sigma_bc@,
            u_bc@,
            sigma_inverse.entries(),
            kappa,
        ),
        commutative_ring::<T>() && only_zero_is_zero::<T>() ==> acts_shifted(
            operator.entries(),
            *galmats,
            sigma_bc@,
            u_bc@,
            sigma_inverse.entries(),
            kappa,
        ),
{
    proof {
        if commutative_ring::<T>() && only_zero_is_zero::<T>() {
            schur_operator_acts(*galmats, sigma_bc@, u_bc@, sigma_inverse.entries(), kappa);
        }
    }
    let mass_u = reduced_square_csr(galmats.mass_u(), u_bc);
    let codifdif_u = reduced_square_csr(galmats.codifdif_u(), u_bc);
    let dif_sigma = reduced_rectangular_csr(galmats.dif_sigma(), u_bc, sigma_bc);
    let codif_u = reduced_rectangular_csr(galmats.codif_u(), sigma_bc, u_bc);
    let shift = scale_sparse(&mass_u, kappa.times(kappa));
    let shifted = add_sparse(&codifdif_u, &shift);
    let half = product(&dif_sigma, sigma_inverse);
    let schur = product(&half, &codif_u);
    add_sparse(&shifted, &schur)
}

/// The operator with a sparse inverse by projection, given on all dofs of the first unknown.
pub fn assemble_reduced_projected_nc1_operator<T: Scalar>(
    galmats: &MixedGalmats<T>,
    sigma_bc: &[bool],
    u_bc: &[bool],
    sigma_inverse: &GalMat<T>,
    kappa: T,
) -> (operator: CsrMatrix<T>)
    requires
        is_full(*galmats, sigma_bc@, u_bc@),
        sigma_inverse.wf(),
        sigma_inverse.rows() == sigma_bc@.len(),
        sigma_inverse.cols() == sigma_bc@.len(),
    ensures
        is_schur_operator(
            operator,
            *galmats,
            sigma_bc@,
            u_bc@,
            compressed(restricted(sigma_inverse.entries(), sigma_bc@, sigma_bc@)),
            kappa,
        ),
{
    let inverse = reduced_square_csr(sigma_inverse, sigma_bc);
    assemble_reduced_schur_operator(galmats, sigma_bc, u_bc, &inverse, kappa)
}

/// The operator with the sparse inverse of the barycentric dual, given on all dofs of the first
/// unknown, or the complaint about that inverse.
pub fn assemble_reduced_barycentric_dual_operator<T: Scalar>(
    galmats: &MixedGalmats<T>,
    sigma_bc: &[bool],
    u_bc: &[bool],
    sigma_inverse: Result<GalMat<T>, String>,
    kappa: T,
) -> (operator: Result<CsrMatrix<T>, String>)
    requires
        is_full(*galmats, sigma_bc@, u_bc@),
        sigma_inverse matches Ok(inverse) ==> inverse.wf() && inverse.rows() == sigma_bc@.len()
            && inverse.cols() == sigma_bc@.len(),
    ensures
        match (sigma_inverse, operator) {
            (Ok(inverse), Ok(operator)) => is_schur_operator(
                operator,
                *galmats,
                sigma_bc@,
                u_bc@,
                compressed(restricted(inverse.entries(), sigma_bc@, sigma_bc@)),
                kappa,
            ),
            (Err(complaint), Err(message)) => message@ == complaint@,
            _ => false,
        },
{
    match sigma_inverse {
        Err(message) => Err(message),
        Ok(inverse) => Ok(
            assemble_reduced_projected_nc1_operator(galmats, sigma_bc, u_bc, &inverse, kappa),
        ),
    }
}

/// The operator with the inverse of the lumped mass on the free dofs of the first unknown.
pub fn assemble_reduced_rowsum_lumped_operator<T: Scalar>(
    galmats: &MixedGalmats<T>,
    sigma_bc: &[bool],
    u_bc: &[bool],
    kappa: T,
) -> (operator: CsrMatrix<T>)
    requires
        is_full(*galmats, sigma_bc@, u_bc@),
    ensures
        is_schur_operator(
            operator,
            *galmats,
            sigma_bc@,
            u_bc@,
            compressed(
                inverse_row_sums(
                    compressed(
                        restricted(galmats.mass_sigma.entries(), sigma_bc@, sigma_bc@),
                    ),
                    unset_before(sigma_bc@, sigma_bc@.len() as int) as int,
                ),
            ),
            kappa,
        ),
{
    let mass = reduced_square_csr(galmats.mass_sigma(), sigma_bc);
    let inverse = row_sum_lumped_inverse(&mass);
    assemble_reduced_schur_operator(galmats, sigma_bc, u_bc, &inverse, kappa)
}

/// Entries with a factor, further down and to the right.
pub open spec fn shifted_entries<T: Scalar>(
    entries: Seq<(usize, usize, T)>,
    offset: nat,
    scale: T,
) -> Seq<(usize, usize, T)> {
    Seq::new(
        entries.len(),
        |i: int|
            (
                (offset + entries[i].0) as usize,
                (offset + entries[i].1) as usize,
                scale.times_spec(entries[i].2),
            ),
    )
}

/// A matrix with a multiple of a block added.
pub open spec fn with_block<T: Scalar>(
    system: Seq<(usize, usize, T)>,
    block: Seq<(usize, usize, T)>,
    offset: nat,
    scale: T,
) -> Seq<(usize, usize, T)> {
    compressed(
        if scale.is_zero_spec() {
            system
        } else {
            system + shifted_entries(block, offset, scale)
        },
    )
}

/// Adds a multiple of a block further down and to the right.
pub fn add_shifted_block<T: Scalar>(
    system: &CsrMatrix<T>,
    block: &CsrMatrix<T>,
    offset: usize,
    scale: T,
) -> (m: CsrMatrix<T>)
    requires
        system.wf(),
        block.wf(),
        offset + block.rows() <= system.rows(),
        offset + block.cols() <= system.cols(),
    ensures
        m.wf(),
        m.rows() == system.rows(),
        m.cols() == system.cols(),
        m.entries() == with_block(system.entries(), block.entries(), offset as nat, scale),
        commutative_ring::<T>() && only_zero_is_zero::<T>() && system.rows() == system.cols()
            && block.rows() == block.cols() ==> adds_block(
            m.entries(),
            system.entries(),
            block.entries(),
            offset as nat,
            scale,
            system.rows(),
        ),
{
    let size: usize = system.nrows();
    proof {
        if commutative_ring::<T>() && only_zero_is_zero::<T>() && system.rows() == system.cols()
            && block.rows() == block.cols() {
            let (n, b) = (size as int, block.rows() as int);
            let made = with_block(system.entries(), block.entries(), offset as nat, scale);
            assert forall|x: Seq<T>, r: int| x.len() == n implies #[trigger] row_dot(made, x, r)
                == (if r < offset {
                row_dot(system.entries(), x, r)
            } else {
                row_dot(system.entries(), x, r).plus_spec(
                    scale.times_spec(
                        row_dot(block.entries(), x.skip(offset as int), r - offset),
                    ),
                )
            }) by {
                block_is_added(
                    system.entries(),
                    block.entries(),
                    offset as nat,
                    scale,
                    n,
                    b,
                    x,
                    r,
                );
            }
        }
    }
    let mut coo: CooMatrix<T> = CooMatrix::from_csr(system);
    if !scale.is_zero() {
        let triplets = block.triplets();
        let ghost start = coo.entries();
        let ghost added = shifted_entries(block.entries(), offset as nat, scale);
        let (nrows, ncols): (usize, usize) = (system.nrows(), system.ncols());
        let mut i: usize = 0;
        while i < triplets.len()
            invariant
                i <= triplets@.len(),
                triplets@ == block.entries(),
                block.wf(),
                nrows == system.rows(),
                ncols == system.cols(),
                offset + block.rows() <= nrows,
                offset + block.cols() <= ncols,
                coo.wf(),
                coo.rows() == nrows,
                coo.cols() == ncols,
                added == shifted_entries(block.entries(), offset as nat, scale),
                coo.entries() =~= start + added.take(i as int),
            decreases triplets@.len() - i,
        {
            let (r, c, v): (usize, usize, T) = triplets[i];
            proof {
                assert(triplets@[i as int].0 < block.rows() && triplets@[i as int].1
                    < block.cols());
            }
            coo.push(offset + r, offset + c, scale.times(v));
            i = i + 1;
        }
        proof {
            assert(added.take(i as int) =~= added);
        }
    }
    CsrMatrix::from_coo(&coo)
}

/// The values on all dofs, zero on the dropped ones.
pub fn expand_reduced_solution<T: Scalar>(reduced: &[T], dropped: &[bool]) -> (full: Vec<T>)
    requires
        reduced@.len() == unset_before(dropped@, dropped@.len() as int),
    ensures
        full@ == all_values(
            reduced@,
            dropped@,
            Seq::new(dropped@.len(), |i: int| T::zero_spec()),
        ),
{
    let zeros: Vec<T> = zero_vector(dropped.len());
    with_prescribed(reduced, dropped, zeros.as_slice())
}

/// A mixed problem before the shift of its second unknown, with homogeneous conditions.
pub open spec fn is_unshifted<T: Scalar>(
    galmats: MixedGalmats<T>,
    sigma_bc: Seq<bool>,
    u_bc: Seq<bool>,
    rhs_u: Seq<T>,
    system: CsrMatrix<T>,
    rhs: Seq<T>,
) -> bool {
    let sigma_zeros = Seq::new(sigma_bc.len(), |i: int| T::zero_spec());
    let u_zeros = Seq::new(u_bc.len(), |i: int| T::zero_spec());
    &&& system.wf()
    &&& exists|a: CooMatrix<T>, b: CooMatrix<T>, c: CooMatrix<T>, d: CooMatrix<T>|
        #![trigger block_entries(a, b, c, d)]
        galmats.is_bordered_system(
            system.entries(),
            system.rows(),
            system.cols(),
            sigma_bc,
            u_bc,
            Seq::empty(),
            a,
            b,
            c,
            d,
        )
    &&& exists|parts: MixedSystem<T>|
        #[trigger] galmats.is_system(
            parts,
            sigma_bc,
            sigma_zeros,
            u_bc,
            u_zeros,
            sigma_zeros,
            rhs_u,
        ) && rhs == parts.free_sigma_rhs() + parts.free_u_rhs()
}

/// The shifted mixed problem on the free dofs.
pub open spec fn is_shifted_system<T: Scalar>(
    galmats: MixedGalmats<T>,
    sigma_bc: Seq<bool>,
    u_bc: Seq<bool>,
    rhs_u: Seq<T>,
    kappa: T,
    system: CsrMatrix<T>,
    rhs: Seq<T>,
) -> bool {
    exists|plain: CsrMatrix<T>|
        #[trigger] is_unshifted(galmats, sigma_bc, u_bc, rhs_u, plain, rhs) && system.wf()
            && system.rows() == plain.rows() && system.cols() == plain.cols() && system.entries()
            == with_block(
            plain.entries(),
            compressed(restricted(galmats.mass_u.entries(), u_bc, u_bc)),
            unset_before(sigma_bc, sigma_bc.len() as int),
            kappa.times_spec(kappa),
        )
}

/// The system of the shifted mixed problem on the free dofs, and its right-hand side.
pub fn reduced_mixed_system<T: Scalar>(
    galmats: &MixedGalmats<T>,
    rhs_u: &[T],
    sigma_bc: &[bool],
    u_bc: &[bool],
    kappa: T,
) -> (system: (CsrMatrix<T>, Vec<T>))
    requires
        is_full(*galmats, sigma_bc@, u_bc@),
        rhs_u@.len() == u_bc@.len(),
        galmats.mass_sigma.rows() + galmats.mass_u.rows() <= usize::MAX,
    ensures
        is_shifted_system(*galmats, sigma_bc@, u_bc@, rhs_u@, kappa, system.0, system.1@),
        commutative_ring::<T>() && only_zero_is_zero::<T>() && system.0.rows() == system.0.cols()
            ==> exists|plain: CsrMatrix<T>|
            #[trigger] is_unshifted(*galmats, sigma_bc@, u_bc@, rhs_u@, plain, system.1@)
                && shifts_second(
                system.0.entries(),
                plain.entries(),
                restricted(galmats.mass_u.entries(), u_bc@, u_bc@),
                unset_before(sigma_bc@, sigma_bc@.len() as int),
                kappa,
                system.0.rows(),
            ),
{
    let sigma_zeros: Vec<T> = zero_vector(sigma_bc.len());
    let u_zeros: Vec<T> = zero_vector(u_bc.len());
    let mut sigma_rhs: Vec<T> = zero_vector(sigma_bc.len());
    let mut u_rhs: Vec<T> = copy_of(rhs_u);
    let harmonics: Vec<Vec<T>> = Vec::new();
    let (plain, rhs) = galmats.mixed_hodge_laplacian_with_strong_bc_via_elimination(
        sigma_bc,
        sigma_zeros.as_slice(),
        u_bc,
        u_zeros.as_slice(),
        &mut sigma_rhs,
        &mut u_rhs,
        harmonics.as_slice(),
    );
    let mass = reduced_square_csr(galmats.mass_u(), u_bc);
    let offset: usize = galmats.free_sigma_len(sigma_bc);
    proof {
        assert(rhs@ =~= sigma_rhs@ + u_rhs@);
        assert(harmonics@ =~= Seq::<Vec<T>>::empty());
        assert(is_unshifted(*galmats, sigma_bc@, u_bc@, rhs_u@, plain, rhs@));
    }
    let system = add_shifted_block(&plain, &mass, offset, kappa.times(kappa));
    proof {
        if commutative_ring::<T>() && only_zero_is_zero::<T>() && system.rows() == system.cols() {
            lemma_restricted_within(galmats.mass_u.entries(), u_bc@, u_bc@);
            squared_shift_shifts(
                system.entries(),
                plain.entries(),
                restricted(galmats.mass_u.entries(), u_bc@, u_bc@),
                offset as nat,
                kappa,
                system.rows(),
                mass.rows() as int,
            );
        }
    }
    (system, rhs)
}

/// The second unknown on all dofs, from the solution on the free ones.
pub fn reduced_mixed_u<T: Scalar>(
    galmats: &MixedGalmats<T>,
    solution: &[T],
    sigma_bc: &[bool],
    u_bc: &[bool],
) -> (u: Vec<T>)
    requires
        is_full(*galmats, sigma_bc@, u_bc@),
        solution@.len() >= unset_before(sigma_bc@, sigma_bc@.len() as int) + unset_before(
            u_bc@,
            u_bc@.len() as int,
        ),
    ensures
        u@ == all_values(
            solution@.subrange(
                unset_before(sigma_bc@, sigma_bc@.len() as int) as int,
                unset_before(sigma_bc@, sigma_bc@.len() as int) + unset_before(
                    u_bc@,
                    u_bc@.len() as int,
                ) as int,
            ),
            u_bc@,
            Seq::new(u_bc@.len(), |i: int| T::zero_spec()),
        ),
{
    let total: usize = solution.len();
    let from: usize = galmats.free_sigma_len(sigma_bc);
    let count: usize = galmats.free_u_len(u_bc);
    let reduced = part_of(solution, from, from + count);
    expand_reduced_solution(reduced.as_slice(), u_bc)
}

/// The errors of the solutions at one refinement.
#[derive(Clone, Copy, Debug)]
pub struct RowErrors<T> {
    pub mixed_l2: T,
    pub mixed_hd: T,
    pub nc1_l2: T,
    pub nc1_hd: T,
    pub rowsum_l2: T,
    pub rowsum_hd: T,
    pub bary_l2: T,
    pub bary_hd: T,
    pub mixed_nc1_l2: T,
    pub mixed_rowsum_l2: T,
    pub mixed_bary_l2: T,
}

/// The errors of the solutions at one refinement, with their rates.
#[derive(Clone, Copy, Debug)]
pub struct SparseInverseHodgeConvergenceRow<T> {
    pub refine: u32,
    pub nboxes_per_dim: usize,
    pub mixed_l2: T,
    pub mixed_l2_rate: T,
    pub mixed_hd: T,
    pub mixed_hd_rate: T,
    pub nc1_l2: T,
    pub nc1_l2_rate: T,
    pub nc1_hd: T,
    pub nc1_hd_rate: T,
    pub rowsum_l2: T,
    pub rowsum_l2_rate: T,
    pub rowsum_hd: T,
    pub rowsum_hd_rate: T,
    pub bary_l2: T,
    pub bary_l2_rate: T,
    pub bary_hd: T,
    pub bary_hd_rate: T,
    pub mixed_nc1_l2: T,
    pub mixed_rowsum_l2: T,
    pub mixed_bary_l2: T,
}

/// The rate at which an error falls when the mesh width is halved.
pub open spec fn halving_rate<T: Scalar>(current: T, previous: T) -> T {
    current.over_spec(previous).logarithm_spec().over_spec(
        T::from_count_spec(2).logarithm_spec(),
    ).negated_spec()
}

/// The solutions of a level by the four ways of solving.
pub struct LevelSolutions<'a, T> {
    pub mixed: &'a Cochain<T>,
    pub nc1: &'a Cochain<T>,
    pub rowsum: &'a Cochain<T>,
    pub bary: &'a Cochain<T>,
}

/// The mesh of a level, with the values of the exact solution and of its derivative.
pub struct LevelData<'a, T> {
    pub topology: &'a Complex,
    pub coords: &'a MeshCoords<T>,
    pub geometries: &'a Vec<SimplexGeometry<T>>,
    pub rule: &'a SimplexQuadRule<T>,
    pub exact: &'a Vec<Vec<Vec<T>>>,
    pub exact_derivative: &'a Vec<Vec<Vec<T>>>,
    pub mass_elmats: &'a Vec<Vec<T>>,
}

impl<'a, T: Scalar> LevelData<'a, T> {
    /// The data is that of two-forms on a mesh of three dimensions.
    pub open spec fn wf(&self) -> bool {
        &&& self.topology.wf()
        &&& self.topology.dimension() == 3
        &&& self.coords.dim == 3
        &&& error_values_fit(2, *self.topology, self.geometries@, *self.rule, self.exact@)
        &&& error_values_fit(
            3,
            *self.topology,
            self.geometries@,
            *self.rule,
            self.exact_derivative@,
        )
        &&& elmats_on(*self.topology, 2, self.mass_elmats@)
    }

    /// A two-form with a value for each face.
    pub open spec fn holds(&self, u: Cochain<T>) -> bool {
        u.dim == 2 && u.on(*self.topology)
    }

    /// The error of a solution.
    pub open spec fn error_of(&self, u: Cochain<T>) -> T {
        l2_error(u, *self.topology, self.geometries@, *self.rule, self.exact@)
    }

    /// The error of the derivative of a solution.
    pub open spec fn is_derivative_error(&self, error: T, u: Cochain<T>) -> bool {
        exists|d: Cochain<T>| #[trigger]
            is_derivative(d, u, *self.topology) && error == l2_error(
                d,
                *self.topology,
                self.geometries@,
                *self.rule,
                self.exact_derivative@,
            )
    }

    /// The error of a solution in the graph norm of the exterior derivative.
    pub open spec fn is_graph_error(&self, error: T, u: Cochain<T>) -> bool {
        exists|d: T| #[trigger]
            self.is_derivative_error(d, u) && error == graph_error(self.error_of(u), d)
    }

    /// The norm of the difference of two solutions.
    pub open spec fn is_distance(&self, norm: T, u: Cochain<T>, v: Cochain<T>) -> bool {
        exists|d: Cochain<T>| #[trigger]
            is_difference(d, u, v) && norm == energy(d, *self.topology, self.mass_elmats@)
    }

    fn errors(&self, u: &Cochain<T>) -> (errors: Result<(T, T), String>)
        requires
            self.wf(),
            self.holds(*u),
        ensures
            errors matches Ok((form, graph)) && form == self.error_of(*u) && self.is_graph_error(
                graph,
                *u,
            ),
    {
        let form = match fe_l2_error(
            u,
            3,
            self.topology,
            self.coords,
            self.geometries,
            self.rule,
            self.exact,
        ) {
            Ok(error) => error,
            Err(message) => return Err(message),
        };
        let d = cochain_dif(u, self.topology);
        match fe_l2_error(
            &d,
            3,
            self.topology,
            self.coords,
            self.geometries,
            self.rule,
            self.exact_derivative,
        ) {
            Ok(derivative) => {
                proof {
                    assert(self.is_derivative_error(derivative, *u));
                }
                Ok((form, hd_error(form, derivative)))
            },
            Err(message) => Err(message),
        }
    }

    fn distance(&self, u: &Cochain<T>, v: &Cochain<T>) -> (norm: T)
        requires
            self.wf(),
            self.holds(*u),
            self.holds(*v),
        ensures
            self.is_distance(norm, *u, *v),
    {
        let d = Cochain { dim: u.dim, coeffs: minus(u.coeffs.as_slice(), v.coeffs.as_slice()) };
        proof {
            assert(is_difference(d, *u, *v));
        }
        l2_norm(&d, self.topology, self.mass_elmats)
    }
}

/// The difference of two cochains.
pub open spec fn is_difference<T: Scalar>(d: Cochain<T>, u: Cochain<T>, v: Cochain<T>) -> bool {
    d.dim == u.dim && d.coeffs@ == difference_of(u.coeffs@, v.coeffs@)
}

/// The errors of the solutions of a level: those of the forms, those in the graph norm of the
/// exterior derivative, and the distances of the others from the mixed one.
pub fn row_errors<T: Scalar>(data: &LevelData<T>, solutions: &LevelSolutions<T>) -> (errors: Result<
    RowErrors<T>,
    String,
>)
    requires
        data.wf(),
        data.holds(*solutions.mixed),
        data.holds(*solutions.nc1),
        data.holds(*solutions.rowsum),
        data.holds(*solutions.bary),
    ensures
        errors matches Ok(e) && {
            &&& e.mixed_l2 == data.error_of(*solutions.mixed)
            &&& data.is_graph_error(e.mixed_hd, *solutions.mixed)
            &&& e.nc1_l2 == data.error_of(*solutions.nc1)
            &&& data.is_graph_error(e.nc1_hd, *solutions.nc1)
            &&& e.rowsum_l2 == data.error_of(*solutions.rowsum)
            &&& data.is_graph_error(e.rowsum_hd, *solutions.rowsum)
            &&& e.bary_l2 == data.error_of(*solutions.bary)
            &&& data.is_graph_error(e.bary_hd, *solutions.bary)
            &&& data.is_distance(e.mixed_nc1_l2, *solutions.mixed, *solutions.nc1)
            &&& data.is_distance(e.mixed_rowsum_l2, *solutions.mixed, *solutions.rowsum)
            &&& data.is_distance(e.mixed_bary_l2, *solutions.mixed, *solutions.bary)
        },
{
    let (mixed_l2, mixed_hd) = match data.errors(solutions.mixed) {
        Ok(errors) => errors,
        Err(message) => return Err(message),
    };
    let (nc1_l2, nc1_hd) = match data.errors(solutions.nc1) {
        Ok(errors) => errors,
        Err(message) => return Err(message),
    };
    let (rowsum_l2, rowsum_hd) = match data.errors(solutions.rowsum) {
        Ok(errors) => errors,
        Err(message) => return Err(message),
    };
    let (bary_l2, bary_hd) = match data.errors(solutions.bary) {
        Ok(errors) => errors,
        Err(message) => return Err(message),
    };
    Ok(
        RowErrors {
            mixed_l2,
            mixed_hd,
            nc1_l2,
            nc1_hd,
            rowsum_l2,
            rowsum_hd,
            bary_l2,
            bary_hd,
            mixed_nc1_l2: data.distance(solutions.mixed, solutions.nc1),
            mixed_rowsum_l2: data.distance(solutions.mixed, solutions.rowsum),
            mixed_bary_l2: data.distance(solutions.mixed, solutions.bary),
        },
    )
}

/// The rate against the previous error; infinite without one.
pub open spec fn rate_after<T: Scalar>(previous: Option<T>, current: T) -> T {
    match previous {
        Some(previous) => halving_rate(current, previous),
        None => T::infinity_spec(),
    }
}

fn last_rate<T: Scalar>(previous: Option<T>, current: T) -> (rate: T)
    ensures
        rate == rate_after(previous, current),
{
    match previous {
        Some(previous) => current.over(previous).logarithm().over(
            T::from_count(2).logarithm(),
        ).negated(),
        None => T::infinity(),
    }
}

/// The row of a refinement, with its rates against the last of the rows before it.
pub open spec fn next_row<T: Scalar>(
    rows: Seq<SparseInverseHodgeConvergenceRow<T>>,
    refine: u32,
    nboxes_per_dim: usize,
    errors: RowErrors<T>,
) -> SparseInverseHodgeConvergenceRow<T> {
    let last = rows.last();
    let first = rows.len() == 0;
    SparseInverseHodgeConvergenceRow {
        refine,
        nboxes_per_dim,
        mixed_l2: errors.mixed_l2,
        mixed_l2_rate: rate_after(
            if first {
                None
            } else {
                Some(last.mixed_l2)
            },
            errors.mixed_l2,
        ),
        mixed_hd: errors.mixed_hd,
        mixed_hd_rate: rate_after(
            if first {
                None
            } else {
                Some(last.mixed_hd)
            },
            errors.mixed_hd,
        ),
        nc1_l2: errors.nc1_l2,
        nc1_l2_rate: rate_after(
            if first {
                None
            } else {
                Some(last.nc1_l2)
            },
            errors.nc1_l2,
        ),
        nc1_hd: errors.nc1_hd,
        nc1_hd_rate: rate_after(
            if first {
                None
            } else {
                Some(last.nc1_hd)
            },
            errors.nc1_hd,
        ),
        rowsum_l2: errors.rowsum_l2,
        rowsum_l2_rate: rate_after(
            if first {
                None
            } else {
                Some(last.rowsum_l2)
            },
            errors.rowsum_l2,
        ),
        rowsum_hd: errors.rowsum_hd,
        rowsum_hd_rate: rate_after(
            if first {
                None
            } else {
                Some(last.rowsum_hd)
            },
            errors.rowsum_hd,
        ),
        bary_l2: errors.bary_l2,
        bary_l2_rate: rate_after(
            if first {
                None
            } else {
                Some(last.bary_l2)
            },
            errors.bary_l2,
        ),
        bary_hd: errors.bary_hd,
        bary_hd_rate: rate_after(
            if first {
                None
            } else {
                Some(last.bary_hd)
            },
            errors.bary_hd,
        ),
        mixed_nc1_l2: errors.mixed_nc1_l2,
        mixed_rowsum_l2: errors.mixed_rowsum_l2,
        mixed_bary_l2: errors.mixed_bary_l2,
    }
}

/// Appends the row of a refinement, with its rates against the last of the rows.
pub fn push_row<T: Scalar>(
    rows: &mut Vec<SparseInverseHodgeConvergenceRow<T>>,
    refine: u32,
    nboxes_per_dim: usize,
    errors: RowErrors<T>,
)
    ensures
        final(rows)@ == old(rows)@.push(next_row(old(rows)@, refine, nboxes_per_dim, errors)),
{
    let last: Option<SparseInverseHodgeConvergenceRow<T>> = if rows.len() > 0 {
        Some(rows[rows.len() - 1])
    } else {
        None
    };
    let previous: RowErrors<Option<T>> = match last {
        Some(row) => RowErrors {
            mixed_l2: Some(row.mixed_l2),
            mixed_hd: Some(row.mixed_hd),
            nc1_l2: Some(row.nc1_l2),
            nc1_hd: Some(row.nc1_hd),
            rowsum_l2: Some(row.rowsum_l2),
            rowsum_hd: Some(row.rowsum_hd),
            bary_l2: Some(row.bary_l2),
            bary_hd: Some(row.bary_hd),
            mixed_nc1_l2: Some(row.mixed_nc1_l2),
            mixed_rowsum_l2: Some(row.mixed_rowsum_l2),
            mixed_bary_l2: Some(row.mixed_bary_l2),
        },
        None => RowErrors {
            mixed_l2: None,
            mixed_hd: None,
            nc1_l2: None,
            nc1_hd: None,
            rowsum_l2: None,
            rowsum_hd: None,
            bary_l2: None,
            bary_hd: None,
            mixed_nc1_l2: None,
            mixed_rowsum_l2: None,
            mixed_bary_l2: None,
        },
    };
    rows.push(
        SparseInverseHodgeConvergenceRow {
            refine,
            nboxes_per_dim,
            mixed_l2: errors.mixed_l2,
            mixed_l2_rate: last_rate(previous.mixed_l2, errors.mixed_l2),
            mixed_hd: errors.mixed_hd,
            mixed_hd_rate: last_rate(previous.mixed_hd, errors.mixed_hd),
            nc1_l2: errors.nc1_l2,
            nc1_l2_rate: last_rate(previous.nc1_l2, errors.nc1_l2),
            nc1_hd: errors.nc1_hd,
            nc1_hd_rate: last_rate(previous.nc1_hd, errors.nc1_hd),
            rowsum_l2: errors.rowsum_l2,
            rowsum_l2_rate: last_rate(previous.rowsum_l2, errors.rowsum_l2),
            rowsum_hd: errors.rowsum_hd,
            rowsum_hd_rate: last_rate(previous.rowsum_hd, errors.rowsum_hd),
            bary_l2: errors.bary_l2,
            bary_l2_rate: last_rate(previous.bary_l2, errors.bary_l2),
            bary_hd: errors.bary_hd,
            bary_hd_rate: last_rate(previous.bary_hd, errors.bary_hd),
            mixed_nc1_l2: errors.mixed_nc1_l2,
            mixed_rowsum_l2: errors.mixed_rowsum_l2,
            mixed_bary_l2: errors.mixed_bary_l2,
        },
    );
}

/// A text with blanks in front up to a width.
pub open spec fn right_aligned(text: Seq<char>, width: nat) -> Seq<char> {
    let blanks = if text.len() < width {
        (width - text.len()) as nat
    } else {
        0
    };
    Seq::new(blanks, |i: int| ' ') + text
}

fn push_right_aligned(line: &mut String, text: &str, width: usize)
    ensures
        final(line)@ == old(line)@ + right_aligned(text@, width as nat),
{
    let ghost start = line@;
    let len: usize = text.unicode_len();
    let mut i: usize = len;
    while i < width
        invariant
            text@.len() == len,
            len <= i,
            i <= width || i == len,
            line@ =~= start + Seq::new((i - len) as nat, |k: int| ' '),
        decreases width - i,
    {
        line.push(' ');
        i = i + 1;
    }
    line.append(text);
    proof {
        assert(line@ =~= start + right_aligned(text@, width as nat));
    }
}

/// Cells of a table between bars.
pub open spec fn bar_line(cells: Seq<Seq<char>>, widths: Seq<nat>) -> Seq<char>
    decreases cells.len(),
{
    if cells.len() == 0 {
        "|"@
    } else {
        bar_line(cells.drop_last(), widths) + " "@ + right_aligned(
            cells.last(),
            widths[cells.len() - 1],
        ) + " |"@
    }
}

/// The widths of the columns of the table.
pub open spec fn column_width(i: int) -> nat {
    if i == 0 {
        2
    } else if i == 1 {
        5
    } else if 2 <= i < 18 && i % 2 == 1 {
        6
    } else {
        10
    }
}

pub open spec fn column_widths() -> Seq<nat> {
    Seq::new(21, |i: int| column_width(i))
}

pub open spec fn cell_views(cells: Seq<String>) -> Seq<Seq<char>> {
    Seq::new(cells.len(), |i: int| cells[i]@)
}

fn table_line(cells: &Vec<String>) -> (line: String)
    requires
        cells@.len() == 21,
    ensures
        line@ == bar_line(cell_views(cells@), column_widths()),
{
    let mut line = owned("|");
    let ghost views = cell_views(cells@);
    let mut i: usize = 0;
    proof {
        assert(views.take(0) =~= Seq::<Seq<char>>::empty());
    }
    while i < cells.len()
        invariant
            i <= cells@.len(),
            cells@.len() == 21,
            views == cell_views(cells@),
            line@ == bar_line(views.take(i as int), column_widths()),
        decreases cells@.len() - i,
    {
        let width: usize = if i == 0 {
            2
        } else if i == 1 {
            5
        } else if i < 18 && i % 2 == 1 {
            6
        } else {
            10
        };
        proof {
            assert(views.take(i + 1).drop_last() =~= views.take(i as int));
            assert(views.take(i + 1).last() == cells@[i as int]@);
            assert(column_widths()[i as int] == width);
        }
        line.append(" ");
        push_right_aligned(&mut line, cells[i].as_str(), width);
        line.append(" |");
        i = i + 1;
    }
    proof {
        assert(views.take(i as int) =~= views);
    }
    line
}

/// The titles of the columns.
pub open spec fn titles() -> Seq<Seq<char>> {
    seq![
        "k"@,
        "n"@,
        "mixed L2"@,
        "rate"@,
        "mixed Hd"@,
        "rate"@,
        "nc1 L2"@,
        "rate"@,
        "nc1 Hd"@,
        "rate"@,
        "rsum L2"@,
        "rate"@,
        "rsum Hd"@,
        "rate"@,
        "bd L2"@,
        "rate"@,
        "bd Hd"@,
        "rate"@,
        "mix-nc1"@,
        "mix-rsum"@,
        "mix-bd"@,
    ]
}

/// The line of the titles of the columns.
pub fn table_header() -> (line: String)
    ensures
        line@ == bar_line(titles(), column_widths()),
{
    let mut cells: Vec<String> = Vec::new();
    cells.push(owned("k"));
    cells.push(owned("n"));
    cells.push(owned("mixed L2"));
    cells.push(owned("rate"));
    cells.push(owned("mixed Hd"));
    cells.push(owned("rate"));
    cells.push(owned("nc1 L2"));
    cells.push(owned("rate"));
    cells.push(owned("nc1 Hd"));
    cells.push(owned("rate"));
    cells.push(owned("rsum L2"));
    cells.push(owned("rate"));
    cells.push(owned("rsum Hd"));
    cells.push(owned("rate"));
    cells.push(owned("bd L2"));
    cells.push(owned("rate"));
    cells.push(owned("bd Hd"));
    cells.push(owned("rate"));
    cells.push(owned("mix-nc1"));
    cells.push(owned("mix-rsum"));
    cells.push(owned("mix-bd"));
    proof {
        assert(cell_views(cells@) =~= titles());
    }
    table_line(&cells)
}

/// The cells of a row.
pub open spec fn row_cells<T: Scalar>(row: SparseInverseHodgeConvergenceRow<T>) -> Seq<Seq<char>> {
    seq![
        decimal(row.refine as nat),
        decimal(row.nboxes_per_dim as nat),
        row.mixed_l2.scientific_spec(2),
        row.mixed_l2_rate.fixed_spec(2),
        row.mixed_hd.scientific_spec(2),
        row.mixed_hd_rate.fixed_spec(2),
        row.nc1_l2.scientific_spec(2),
        row.nc1_l2_rate.fixed_spec(2),
        row.nc1_hd.scientific_spec(2),
        row.nc1_hd_rate.fixed_spec(2),
        row.rowsum_l2.scientific_spec(2),
        row.rowsum_l2_rate.fixed_spec(2),
        row.rowsum_hd.scientific_spec(2),
        row.rowsum_hd_rate.fixed_spec(2),
        row.bary_l2.scientific_spec(2),
        row.bary_l2_rate.fixed_spec(2),
        row.bary_hd.scientific_spec(2),
        row.bary_hd_rate.fixed_spec(2),
        row.mixed_nc1_l2.scientific_spec(2),
        row.mixed_rowsum_l2.scientific_spec(2),
        row.mixed_bary_l2.scientific_spec(2),
    ]
}

/// The line of a row.
pub fn table_row<T: Scalar>(row: &SparseInverseHodgeConvergenceRow<T>) -> (line: String)
    ensures
        line@ == bar_line(row_cells(*row), column_widths()),
{
    let mut cells: Vec<String> = Vec::new();
    cells.push(crate::text::decimal_string(row.refine as usize));
    cells.push(crate::text::decimal_string(row.nboxes_per_dim));
    cells.push(row.mixed_l2.scientific(2));
    cells.push(row.mixed_l2_rate.fixed(2));
    cells.push(row.mixed_hd.scientific(2));
    cells.push(row.mixed_hd_rate.fixed(2));
    cells.push(row.nc1_l2.scientific(2));
    cells.push(row.nc1_l2_rate.fixed(2));
    cells.push(row.nc1_hd.scientific(2));
    cells.push(row.nc1_hd_rate.fixed(2));
    cells.push(row.rowsum_l2.scientific(2));
    cells.push(row.rowsum_l2_rate.fixed(2));
    cells.push(row.rowsum_hd.scientific(2));
    cells.push(row.rowsum_hd_rate.fixed(2));
    cells.push(row.bary_l2.scientific(2));
    cells.push(row.bary_l2_rate.fixed(2));
    cells.push(row.bary_hd.scientific(2));
    cells.push(row.bary_hd_rate.fixed(2));
    cells.push(row.mixed_nc1_l2.scientific(2));
    cells.push(row.mixed_rowsum_l2.scientific(2));
    cells.push(row.mixed_bary_l2.scientific(2));
    proof {
        assert(cell_views(cells@) =~= row_cells(*row));
    }
    table_line(&cells)
}

/// The lines of the first rows.
pub open spec fn row_lines<T: Scalar>(
    rows: Seq<SparseInverseHodgeConvergenceRow<T>>,
    n: int,
) -> Seq<char>
    decreases n,
{
    if n <= 0 {
        Seq::empty()
    } else {
        row_lines(rows, n - 1) + bar_line(row_cells(rows[n - 1]), column_widths()) + "\n"@
    }
}

/// What the summary says in front of the table.
pub open spec fn preamble<T: Scalar>(kappa: T, max_refinement: nat) -> Seq<char> {
    "2-form Hodge-Laplacian convergence in 3d\nkappa = "@ + kappa.fixed_spec(3)
        + "\nHomogeneous strong boundary conditions are enforced on boundary edges and faces.\n"@
        + "The mixed solve uses sparse LU on the reduced system. The nc1 path uses a reduced projected-NC1 Schur operator. The rsum path uses a reduced Schur operator with row-sum lumping of the consistent (k-1)-mass. The bd path uses the FEEC barycentric-dual sparse inverse on the sigma 1-form mass. All operator paths use sparse Cholesky.\n"@
        + "Maximum refinement for this resolved run is "@ + decimal(max_refinement) + ".\n\n"@
}

/// The summary of a study.
pub fn summary<T: Scalar>(
    config: &SparseInverseHodgeValidationConfig,
    kappa: T,
    rows: &[SparseInverseHodgeConvergenceRow<T>],
) -> (text: String)
    ensures
        text@ == preamble(kappa, config.max_refinement as nat) + bar_line(
            titles(),
            column_widths(),
        ) + "\n"@ + row_lines(rows@, rows@.len() as int),
{
    let mut text = owned("2-form Hodge-Laplacian convergence in 3d\nkappa = ");
    text.append(kappa.fixed(3).as_str());
    text.append(
        "\nHomogeneous strong boundary conditions are enforced on boundary edges and faces.\n",
    );
    text.append(
        "The mixed solve uses sparse LU on the reduced system. The nc1 path uses a reduced projected-NC1 Schur operator. The rsum path uses a reduced Schur operator with row-sum lumping of the consistent (k-1)-mass. The bd path uses the FEEC barycentric-dual sparse inverse on the sigma 1-form mass. All operator paths use sparse Cholesky.\n",
    );
    text.append("Maximum refinement for this resolved run is ");
    push_decimal(&mut text, config.max_refinement as usize);
    text.append(".\n\n");
    text.append(table_header().as_str());
    text.append("\n");
    let ghost start = text@;
    let mut i: usize = 0;
    while i < rows.len()
        invariant
            i <= rows@.len(),
            text@ =~= start + row_lines(rows@, i as int),
        decreases rows@.len() - i,
    {
        text.append(table_row(&rows[i]).as_str());
        text.append("\n");
        i = i + 1;
    }
    text
}

} // verus!
