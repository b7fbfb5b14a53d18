//! Eigenproblems of the Hodge Laplacian and its harmonic forms.

use crate::assemble::boundary_conditions::selection;
use crate::linalg::algebra::{reciprocal, reciprocal_spec};
use crate::linalg::blocks::push_shifted;
use crate::linalg::blocks::shifted;
use crate::linalg::csr::compressed;
use crate::linalg::csr::CsrMatrix;
use crate::linalg::petsc::{GhiepReducedSolve, GhiepWhich};
use crate::linalg::scalar::Scalar;
use crate::linalg::sparse::CooMatrix;
use crate::linalg::sparse::{restricted, unset_before_bound};
use crate::problems::elimination::is_free_block;
use crate::problems::elimination::part_of;
use crate::problems::mixed_galmats::{restrict_or_empty, MixedGalmats};
use crate::problems::mixed_galmats::{elmats_match, free_count};
use crate::topology::complex::Complex;
use crate::topology::simplex::Dim;
use vstd::prelude::*;

verus! {

/// The eigenproblem that stands for the mixed one.
#[derive(Debug)]
pub enum EvpPlan<T> {
    /// Smallest eigenvalues of both unknowns together.
    Mixed { lhs: CsrMatrix<T>, rhs: CsrMatrix<T>, sigma_len: usize, u_len: usize },
    /// Largest eigenvalues where there is only the second unknown.
    Plain { l: CsrMatrix<T>, mk: CsrMatrix<T> },
    /// Largest eigenvalues with the first unknown eliminated, and how its mass is inverted.
    Reduced {
        l: CsrMatrix<T>,
        d: CsrMatrix<T>,
        c: CsrMatrix<T>,
        mkm1: CsrMatrix<T>,
        mk: CsrMatrix<T>,
        mass_solve: GhiepReducedSolve,
    },
}

/// A matrix in compressed form.
pub open spec fn compresses_to<T: Scalar>(csr: CsrMatrix<T>, coo: CooMatrix<T>) -> bool {
    &&& csr.wf()
    &&& csr.rows() == coo.rows()
    &&& csr.cols() == coo.cols()
    &&& csr.entries() == compressed(coo.entries())
}

/// A block without the flagged rows and columns, in compressed form.
pub open spec fn is_free_csr<T: Scalar>(
    csr: CsrMatrix<T>,
    m: CooMatrix<T>,
    rows: Seq<bool>,
    cols: Seq<bool>,
) -> bool {
    exists|block: CooMatrix<T>| #[trigger]
        is_free_block(block, m, rows, cols) && compresses_to(csr, block)
}

/// A matrix without the rows and columns that both selections flag; all of it unless both
/// selections are there.
pub open spec fn is_selected_csr<T: Scalar>(
    csr: CsrMatrix<T>,
    m: CooMatrix<T>,
    rows: Option<Seq<bool>>,
    cols: Option<Seq<bool>>,
    both: bool,
) -> bool {
    if both {
        is_free_csr(csr, m, rows->0, cols->0)
    } else {
        compresses_to(csr, m)
    }
}

/// How many dofs of the first unknown stay.
pub open spec fn kept_sigma<T: Scalar>(
    galmats: MixedGalmats<T>,
    sigma_mask: Option<Seq<bool>>,
    both: bool,
) -> nat {
    if both {
        free_count(sigma_mask->0)
    } else {
        galmats.mass_sigma.rows()
    }
}

/// How many dofs of the second unknown stay.
pub open spec fn kept_u<T: Scalar>(
    galmats: MixedGalmats<T>,
    u_mask: Option<Seq<bool>>,
    both: bool,
) -> nat {
    if both {
        free_count(u_mask->0)
    } else {
        galmats.mass_u.rows()
    }
}

/// The mass of the second unknown on the dofs that its selection leaves.
pub open spec fn kept_mass<T: Scalar>(galmats: MixedGalmats<T>, u_mask: Option<Seq<bool>>) -> Seq<
    (usize, usize, T),
> {
    match u_mask {
        Some(mask) => restricted(galmats.mass_u.entries(), mask, mask),
        None => galmats.mass_u.entries(),
    }
}

/// The matrix of the mixed problem, on the free dofs where both unknowns have a selection.
pub open spec fn is_mixed_csr<T: Scalar>(
    csr: CsrMatrix<T>,
    galmats: MixedGalmats<T>,
    sigma_mask: Option<Seq<bool>>,
    u_mask: Option<Seq<bool>>,
) -> bool {
    exists|m: CooMatrix<T>| #[trigger]
        compresses_to(csr, m) && (if sigma_mask is Some && u_mask is Some {
            galmats.is_reduced(m, sigma_mask->0, u_mask->0)
        } else {
            galmats.is_mixed(m)
        })
}

/// The eigenproblem for one end of the spectrum. Dofs are left out where both unknowns have a
/// selection.
pub open spec fn is_evp_plan<T: Scalar>(
    plan: EvpPlan<T>,
    galmats: MixedGalmats<T>,
    sigma_mask: Option<Seq<bool>>,
    u_mask: Option<Seq<bool>>,
    which: GhiepWhich,
    mass_solve: GhiepReducedSolve,
) -> bool {
    let both = sigma_mask is Some && u_mask is Some;
    let ns = kept_sigma(galmats, sigma_mask, both);
    let nu = kept_u(galmats, u_mask, both);
    match plan {
        EvpPlan::Mixed { lhs, rhs, sigma_len, u_len } => {
            &&& which is Smallest
            &&& sigma_len == ns
            &&& u_len == nu
            &&& is_mixed_csr(lhs, galmats, sigma_mask, u_mask)
            &&& rhs.wf()
            &&& rhs.rows() == ns + nu
            &&& rhs.cols() == ns + nu
            &&& rhs.entries() == compressed(shifted(kept_mass(galmats, u_mask), ns, ns))
        },
        EvpPlan::Plain { l, mk } => {
            &&& which is Largest
            &&& ns == 0
            &&& is_selected_csr(l, galmats.codifdif_u, u_mask, u_mask, both)
            &&& is_selected_csr(mk, galmats.mass_u, u_mask, u_mask, both)
        },
        EvpPlan::Reduced { l, d, c, mkm1, mk, mass_solve: solve } => {
            &&& which is Largest
            &&& solve == mass_solve
            &&& ns > 0
            &&& is_selected_csr(l, galmats.codifdif_u, u_mask, u_mask, both)
            &&& is_selected_csr(d, galmats.dif_sigma, u_mask, sigma_mask, both)
            &&& is_selected_csr(c, galmats.codif_u, sigma_mask, u_mask, both)
            &&& is_selected_csr(mkm1, galmats.mass_sigma, sigma_mask, sigma_mask, both)
            &&& is_selected_csr(mk, galmats.mass_u, u_mask, u_mask, both)
        },
    }
}

/// Selections flag each dof of their unknown.
pub open spec fn masks_match<T: Scalar>(
    galmats: MixedGalmats<T>,
    sigma_mask: Option<Seq<bool>>,
    u_mask: Option<Seq<bool>>,
) -> bool {
    &&& sigma_mask is Some ==> sigma_mask->0.len() == galmats.mass_sigma.rows()
    &&& u_mask is Some ==> u_mask->0.len() == galmats.mass_u.rows()
}

fn selected_csr<T: Scalar>(
    m: &CooMatrix<T>,
    rows: Option<&[bool]>,
    cols: Option<&[bool]>,
    both: bool,
) -> (csr: CsrMatrix<T>)
    requires
        m.wf(),
        both ==> rows is Some && cols is Some && crate::problems::elimination::fits(
            *m,
            rows->0@.len(),
            cols->0@.len(),
        ),
    ensures
        is_selected_csr(csr, *m, selection(rows), selection(cols), both),
        both ==> csr.rows() == 0 || csr.rows() == free_count(rows->0@),
        both && m.rows() == rows->0@.len() && m.cols() == cols->0@.len() ==> csr.rows()
            == free_count(rows->0@),
{
    if both {
        if let Some(r) = rows {
            if let Some(c) = cols {
                let block = restrict_or_empty(m, r, c);
                let csr = CsrMatrix::from_coo(&block);
                proof {
                    assert(is_free_block(block, *m, r@, c@));
                }
                return csr;
            }
        }
    }
    CsrMatrix::from_coo(m)
}

fn smallest_plan<T: Scalar>(
    galmats: &MixedGalmats<T>,
    sigma_mask: Option<&[bool]>,
    u_mask: Option<&[bool]>,
    Ghost(mass_solve): Ghost<GhiepReducedSolve>,
) -> (plan: EvpPlan<T>)
    requires
        galmats.wf(),
        masks_match(*galmats, selection(sigma_mask), selection(u_mask)),
    ensures
        is_evp_plan(
            plan,
            *galmats,
            selection(sigma_mask),
            selection(u_mask),
            GhiepWhich::Smallest,
            mass_solve,
        ),
{
    let mut lhs: CooMatrix<T> = galmats.mixed_hodge_laplacian();
    let mut sigma_len: usize = galmats.sigma_len();
    let mut u_len: usize = galmats.u_len();
    if let Some(s) = sigma_mask {
        if let Some(u) = u_mask {
            lhs = galmats.reduced_mixed_hodge_laplacian(s, u);
            sigma_len = galmats.free_sigma_len(s);
            u_len = galmats.free_u_len(u);
            proof {
                unset_before_bound(s@, s@.len() as int);
                unset_before_bound(u@, u@.len() as int);
            }
        }
    }
    let mass_u: CooMatrix<T> = match u_mask {
        Some(u) => galmats.mass_u.restrict(u, u),
        None => galmats.mass_u.copied(),
    };
    proof {
        if u_mask is Some {
            unset_before_bound(u_mask->0@, u_mask->0@.len() as int);
        }
    }
    let mut rhs: CooMatrix<T> = CooMatrix::zeros(sigma_len + u_len, sigma_len + u_len);
    push_shifted(&mut rhs, &mass_u, sigma_len, sigma_len);
    let lhs_csr = CsrMatrix::from_coo(&lhs);
    let rhs_csr = CsrMatrix::from_coo(&rhs);
    proof {
        assert(rhs.entries() =~= shifted(
            kept_mass(*galmats, selection(u_mask)),
            sigma_len as nat,
            sigma_len as nat,
        ));
        assert(compresses_to(lhs_csr, lhs));
        assert(is_mixed_csr(lhs_csr, *galmats, selection(sigma_mask), selection(u_mask)));
    }
    EvpPlan::Mixed { lhs: lhs_csr, rhs: rhs_csr, sigma_len, u_len }
}

fn largest_plan<T: Scalar>(
    galmats: &MixedGalmats<T>,
    sigma_mask: Option<&[bool]>,
    u_mask: Option<&[bool]>,
    mass_solve: GhiepReducedSolve,
) -> (plan: EvpPlan<T>)
    requires
        galmats.wf(),
        masks_match(*galmats, selection(sigma_mask), selection(u_mask)),
    ensures
        is_evp_plan(
            plan,
            *galmats,
            selection(sigma_mask),
            selection(u_mask),
            GhiepWhich::Largest,
            mass_solve,
        ),
{
    let both: bool = sigma_mask.is_some() && u_mask.is_some();
    let mkm1 = selected_csr(&galmats.mass_sigma, sigma_mask, sigma_mask, both);
    let l = selected_csr(&galmats.codifdif_u, u_mask, u_mask, both);
    let mk = selected_csr(&galmats.mass_u, u_mask, u_mask, both);
    if mkm1.nrows() == 0 {
        return EvpPlan::Plain { l, mk };
    }
    let d = selected_csr(&galmats.dif_sigma, u_mask, sigma_mask, both);
    let c = selected_csr(&galmats.codif_u, sigma_mask, u_mask, both);
    EvpPlan::Reduced { l, d, c, mkm1, mk, mass_solve }
}

/// The eigenproblem for one end of the spectrum.
pub fn solve_hodge_laplace_evp_with_galmats_config<T: Scalar>(
    galmats: &MixedGalmats<T>,
    sigma_mask: Option<&[bool]>,
    u_mask: Option<&[bool]>,
    which: GhiepWhich,
    mass_solve: GhiepReducedSolve,
) -> (plan: EvpPlan<T>)
    requires
        galmats.wf(),
        masks_match(*galmats, selection(sigma_mask), selection(u_mask)),
    ensures
        is_evp_plan(
            plan,
            *galmats,
            selection(sigma_mask),
            selection(u_mask),
            which,
            mass_solve,
        ),
{
    match which {
        GhiepWhich::Smallest => smallest_plan(galmats, sigma_mask, u_mask, Ghost(mass_solve)),
        GhiepWhich::Largest => largest_plan(galmats, sigma_mask, u_mask, mass_solve),
    }
}

/// The eigenproblem for the smallest eigenvalues.
pub fn solve_hodge_laplace_evp_with_galmats<T: Scalar>(
    galmats: &MixedGalmats<T>,
    sigma_mask: Option<&[bool]>,
    u_mask: Option<&[bool]>,
) -> (plan: EvpPlan<T>)
    requires
        galmats.wf(),
        masks_match(*galmats, selection(sigma_mask), selection(u_mask)),
    ensures
        is_evp_plan(
            plan,
            *galmats,
            selection(sigma_mask),
            selection(u_mask),
            GhiepWhich::Smallest,
            GhiepReducedSolve::Direct,
        ),
{
    solve_hodge_laplace_evp_with_galmats_config(
        galmats,
        sigma_mask,
        u_mask,
        GhiepWhich::Smallest,
        GhiepReducedSolve::Direct,
    )
}

/// The eigenproblem for the largest eigenvalues.
pub fn solve_hodge_laplace_evp_largest_with_galmats<T: Scalar>(
    galmats: &MixedGalmats<T>,
    sigma_mask: Option<&[bool]>,
    u_mask: Option<&[bool]>,
) -> (plan: EvpPlan<T>)
    requires
        galmats.wf(),
        masks_match(*galmats, selection(sigma_mask), selection(u_mask)),
    ensures
        is_evp_plan(
            plan,
            *galmats,
            selection(sigma_mask),
            selection(u_mask),
            GhiepWhich::Largest,
            GhiepReducedSolve::Direct,
        ),
{
    solve_hodge_laplace_evp_with_galmats_config(
        galmats,
        sigma_mask,
        u_mask,
        GhiepWhich::Largest,
        GhiepReducedSolve::Direct,
    )
}

/// Element matrices of the masses of a grade and of its neighbours.
pub open spec fn mixed_elmats<T>(
    topology: &Complex,
    grade: Dim,
    elmats_u: Seq<Vec<T>>,
    elmats_sigma: Seq<Vec<T>>,
    elmats_plus: Seq<Vec<T>>,
) -> bool {
    &&& topology.wf()
    &&& grade <= topology.dimension()
    &&& elmats_match(topology, grade as int, elmats_u)
    &&& grade > 0 ==> elmats_match(topology, grade - 1, elmats_sigma)
    &&& grade > 0 ==> topology.simplices(grade - 1).len() + topology.simplices(grade as int).len()
        <= usize::MAX
    &&& grade < topology.dimension() ==> elmats_match(topology, grade + 1, elmats_plus)
}

/// The matrices of a grade are made of these element matrices.
pub open spec fn galmats_of<T: Scalar>(
    galmats: MixedGalmats<T>,
    topology: &Complex,
    grade: Dim,
    elmats_u: Seq<Vec<T>>,
    elmats_sigma: Seq<Vec<T>>,
    elmats_plus: Seq<Vec<T>>,
) -> bool {
    &&& galmats.wf()
    &&& galmats.mass_u.rows() == topology.simplices(grade as int).len()
    &&& galmats.mass_u.entries() == crate::problems::mixed_galmats::mass_entries(
        topology,
        grade as int,
        elmats_u,
    )
    &&& galmats.is_of(topology, grade as int, elmats_sigma, elmats_plus)
}

/// The eigenproblem of a grade for one end of the spectrum, on all dofs.
pub fn solve_hodge_laplace_evp_config<T: Scalar>(
    topology: &Complex,
    grade: Dim,
    elmats_u: &Vec<Vec<T>>,
    elmats_sigma: &Vec<Vec<T>>,
    elmats_plus: &Vec<Vec<T>>,
    which: GhiepWhich,
    mass_solve: GhiepReducedSolve,
) -> (plan: EvpPlan<T>)
    requires
        mixed_elmats(topology, grade, elmats_u@, elmats_sigma@, elmats_plus@),
    ensures
        exists|galmats: MixedGalmats<T>| #[trigger]
            galmats_of(galmats, topology, grade, elmats_u@, elmats_sigma@, elmats_plus@)
                && is_evp_plan(plan, galmats, None, None, which, mass_solve),
{
    let galmats = MixedGalmats::compute(topology, grade, elmats_u, elmats_sigma, elmats_plus);
    let plan = solve_hodge_laplace_evp_with_galmats_config(
        &galmats,
        None,
        None,
        which,
        mass_solve,
    );
    proof {
        assert(galmats_of(galmats, topology, grade, elmats_u@, elmats_sigma@, elmats_plus@));
    }
    plan
}

/// The eigenproblem of a grade for the smallest eigenvalues, on all dofs.
pub fn solve_hodge_laplace_evp<T: Scalar>(
    topology: &Complex,
    grade: Dim,
    elmats_u: &Vec<Vec<T>>,
    elmats_sigma: &Vec<Vec<T>>,
    elmats_plus: &Vec<Vec<T>>,
) -> (plan: EvpPlan<T>)
    requires
        mixed_elmats(topology, grade, elmats_u@, elmats_sigma@, elmats_plus@),
    ensures
        exists|galmats: MixedGalmats<T>| #[trigger]
            galmats_of(galmats, topology, grade, elmats_u@, elmats_sigma@, elmats_plus@)
                && is_evp_plan(
                plan,
                galmats,
                None,
                None,
                GhiepWhich::Smallest,
                GhiepReducedSolve::Direct,
            ),
{
    solve_hodge_laplace_evp_config(
        topology,
        grade,
        elmats_u,
        elmats_sigma,
        elmats_plus,
        GhiepWhich::Smallest,
        GhiepReducedSolve::Direct,
    )
}

/// The eigenproblem of a grade for the largest eigenvalues, on all dofs.
pub fn solve_hodge_laplace_evp_largest<T: Scalar>(
    topology: &Complex,
    grade: Dim,
    elmats_u: &Vec<Vec<T>>,
    elmats_sigma: &Vec<Vec<T>>,
    elmats_plus: &Vec<Vec<T>>,
) -> (plan: EvpPlan<T>)
    requires
        mixed_elmats(topology, grade, elmats_u@, elmats_sigma@, elmats_plus@),
    ensures
        exists|galmats: MixedGalmats<T>| #[trigger]
            galmats_of(galmats, topology, grade, elmats_u@, elmats_sigma@, elmats_plus@)
                && is_evp_plan(
                plan,
                galmats,
                None,
                None,
                GhiepWhich::Largest,
                GhiepReducedSolve::Direct,
            ),
{
    solve_hodge_laplace_evp_config(
        topology,
        grade,
        elmats_u,
        elmats_sigma,
        elmats_plus,
        GhiepWhich::Largest,
        GhiepReducedSolve::Direct,
    )
}

/// Both matrices have the same shape and the same entries.
pub open spec fn same_csr<T: Scalar>(a: CsrMatrix<T>, b: CsrMatrix<T>) -> bool {
    &&& a.rows() == b.rows()
    &&& a.cols() == b.cols()
    &&& a.entries() == b.entries()
}

/// Both matrices have the same shape and the same entries.
pub open spec fn same_coo<T: Scalar>(a: CooMatrix<T>, b: CooMatrix<T>) -> bool {
    &&& a.rows() == b.rows()
    &&& a.cols() == b.cols()
    &&& a.entries() == b.entries()
}

/// Both plans pose the same eigenproblem.
pub open spec fn same_plan<T: Scalar>(a: EvpPlan<T>, b: EvpPlan<T>) -> bool {
    match a {
        EvpPlan::Mixed { lhs, rhs, sigma_len, u_len } => b matches EvpPlan::Mixed {
            lhs: lhs_b,
            rhs: rhs_b,
            sigma_len: sigma_len_b,
            u_len: u_len_b,
        } && same_csr(lhs, lhs_b) && same_csr(rhs, rhs_b) && sigma_len == sigma_len_b && u_len
            == u_len_b,
        EvpPlan::Plain { l, mk } => b matches EvpPlan::Plain { l: l_b, mk: mk_b } && same_csr(
            l,
            l_b,
        ) && same_csr(mk, mk_b),
        EvpPlan::Reduced { l, d, c, mkm1, mk, mass_solve } => b matches EvpPlan::Reduced {
            l: l_b,
            d: d_b,
            c: c_b,
            mkm1: mkm1_b,
            mk: mk_b,
            mass_solve: solve_b,
        } && same_csr(l, l_b) && same_csr(d, d_b) && same_csr(c, c_b) && same_csr(mkm1, mkm1_b)
            && same_csr(mk, mk_b) && mass_solve == solve_b,
    }
}

/// The problem of the smallest eigenvalues does not depend on how a mass is inverted: the
/// configured eigenproblem is the named one. So it is for the largest eigenvalues, if masses are
/// factorized.
pub proof fn configured_evp_is_the_named_one<T: Scalar>(
    configured: EvpPlan<T>,
    named: EvpPlan<T>,
    galmats: MixedGalmats<T>,
    sigma_mask: Option<Seq<bool>>,
    u_mask: Option<Seq<bool>>,
    which: GhiepWhich,
    mass_solve: GhiepReducedSolve,
)
    requires
        which is Smallest || mass_solve is Direct,
        is_evp_plan(configured, galmats, sigma_mask, u_mask, which, mass_solve),
        is_evp_plan(named, galmats, sigma_mask, u_mask, which, GhiepReducedSolve::Direct),
    ensures
        same_plan(configured, named),
{
}

proof fn lemma_galmats_determined<T: Scalar>(
    a: MixedGalmats<T>,
    b: MixedGalmats<T>,
    topology: &Complex,
    grade: Dim,
    elmats_u: Seq<Vec<T>>,
    elmats_sigma: Seq<Vec<T>>,
    elmats_plus: Seq<Vec<T>>,
)
    requires
        grade <= topology.dimension(),
        galmats_of(a, topology, grade, elmats_u, elmats_sigma, elmats_plus),
        galmats_of(b, topology, grade, elmats_u, elmats_sigma, elmats_plus),
    ensures
        same_coo(a.mass_u, b.mass_u),
        same_coo(a.mass_sigma, b.mass_sigma),
        same_coo(a.dif_sigma, b.dif_sigma),
        same_coo(a.codif_u, b.codif_u),
        same_coo(a.codifdif_u, b.codifdif_u),
{
}

/// On a mesh, too, the configured eigenproblem of a grade is the named one, under the same
/// conditions.
pub proof fn configured_evp_of_grade_is_the_named_one<T: Scalar>(
    configured: (EvpPlan<T>, MixedGalmats<T>),
    named: (EvpPlan<T>, MixedGalmats<T>),
    topology: &Complex,
    grade: Dim,
    elmats_u: Seq<Vec<T>>,
    elmats_sigma: Seq<Vec<T>>,
    elmats_plus: Seq<Vec<T>>,
    which: GhiepWhich,
    mass_solve: GhiepReducedSolve,
)
    requires
        grade <= topology.dimension(),
        which is Smallest || mass_solve is Direct,
        galmats_of(configured.1, topology, grade, elmats_u, elmats_sigma, elmats_plus),
        galmats_of(named.1, topology, grade, elmats_u, elmats_sigma, elmats_plus),
        is_evp_plan(configured.0, configured.1, None, None, which, mass_solve),
        is_evp_plan(named.0, named.1, None, None, which, GhiepReducedSolve::Direct),
    ensures
        same_plan(configured.0, named.0),
{
    lemma_galmats_determined(
        configured.1,
        named.1,
        topology,
        grade,
        elmats_u,
        elmats_sigma,
        elmats_plus,
    );
}

/// A part of each column.
pub open spec fn column_parts<T>(
    parts: Seq<Vec<T>>,
    columns: Seq<Vec<T>>,
    from: int,
    to: int,
) -> bool {
    &&& parts.len() == columns.len()
    &&& forall|i: int|
        0 <= i < parts.len() ==> (#[trigger] parts[i])@ == columns[i]@.subrange(from, to)
}

/// The eigenvectors of the mixed problem as those of the two unknowns.
pub fn split_eigenvectors<T: Scalar>(eigenvectors: &[Vec<T>], sigma_len: usize, u_len: usize) -> (
parts: (Vec<Vec<T>>, Vec<Vec<T>>))
    requires
        sigma_len + u_len <= usize::MAX,
        forall|i: int|
            0 <= i < eigenvectors@.len() ==> (#[trigger] eigenvectors@[i])@.len() == sigma_len
                + u_len,
    ensures
        column_parts(parts.0@, eigenvectors@, 0, sigma_len as int),
        column_parts(parts.1@, eigenvectors@, sigma_len as int, sigma_len + u_len),
{
    let mut sigmas: Vec<Vec<T>> = Vec::new();
    let mut us: Vec<Vec<T>> = Vec::new();
    let mut i: usize = 0;
    while i < eigenvectors.len()
        invariant
            i <= eigenvectors@.len(),
            sigma_len + u_len <= usize::MAX,
            forall|j: int|
                0 <= j < eigenvectors@.len() ==> (#[trigger] eigenvectors@[j])@.len() == sigma_len
                    + u_len,
            column_parts(sigmas@, eigenvectors@.take(i as int), 0, sigma_len as int),
            column_parts(us@, eigenvectors@.take(i as int), sigma_len as int, sigma_len + u_len),
        decreases eigenvectors@.len() - i,
    {
        proof {
            assert(eigenvectors@[i as int]@.len() == sigma_len + u_len);
        }
        sigmas.push(part_of(eigenvectors[i].as_slice(), 0, sigma_len));
        us.push(part_of(eigenvectors[i].as_slice(), sigma_len, sigma_len + u_len));
        i = i + 1;
    }
    proof {
        assert(eigenvectors@.take(i as int) =~= eigenvectors@);
    }
    (sigmas, us)
}

/// How small the eigenvalue of a harmonic form has to be, as the reciprocal of this number.
pub const HARMONIC_RESOLUTION: u64 = 1_000_000_000_000;

/// All eigenvalues are those of harmonic forms.
pub open spec fn all_harmonic<T: Scalar>(eigenvals: Seq<T>) -> bool {
    forall|i: int|
        0 <= i < eigenvals.len() ==> (#[trigger] eigenvals[i]).is_at_most_spec(
            reciprocal_spec::<T>(HARMONIC_RESOLUTION as nat),
        )
}

/// The eigenproblem whose eigenvectors are the harmonic forms; none if there are none.
pub fn solve_hodge_laplace_harmonics_with_galmats<T: Scalar>(
    galmats: &MixedGalmats<T>,
    homology_dim: usize,
    sigma_mask: Option<&[bool]>,
    u_mask: Option<&[bool]>,
) -> (plan: Option<EvpPlan<T>>)
    requires
        galmats.wf(),
        masks_match(*galmats, selection(sigma_mask), selection(u_mask)),
    ensures
        plan is None == (homology_dim == 0),
        plan matches Some(p) ==> is_evp_plan(
            p,
            *galmats,
            selection(sigma_mask),
            selection(u_mask),
            GhiepWhich::Smallest,
            GhiepReducedSolve::Direct,
        ),
{
    if homology_dim == 0 {
        return None;
    }
    Some(solve_hodge_laplace_evp_with_galmats(galmats, sigma_mask, u_mask))
}

/// The eigenproblem whose eigenvectors are the harmonic forms of a grade, on all dofs.
pub fn solve_hodge_laplace_harmonics<T: Scalar>(
    topology: &Complex,
    grade: Dim,
    homology_dim: usize,
    elmats_u: &Vec<Vec<T>>,
    elmats_sigma: &Vec<Vec<T>>,
    elmats_plus: &Vec<Vec<T>>,
) -> (plan: Option<EvpPlan<T>>)
    requires
        mixed_elmats(topology, grade, elmats_u@, elmats_sigma@, elmats_plus@),
    ensures
        plan is None == (homology_dim == 0),
        plan matches Some(p) ==> exists|galmats: MixedGalmats<T>| #[trigger]
            galmats_of(galmats, topology, grade, elmats_u@, elmats_sigma@, elmats_plus@)
                && is_evp_plan(
                p,
                galmats,
                None,
                None,
                GhiepWhich::Smallest,
                GhiepReducedSolve::Direct,
            ),
{
    let galmats = MixedGalmats::compute(topology, grade, elmats_u, elmats_sigma, elmats_plus);
    proof {
        assert(galmats_of(galmats, topology, grade, elmats_u@, elmats_sigma@, elmats_plus@));
    }
    solve_hodge_laplace_harmonics_with_galmats(&galmats, homology_dim, None, None)
}

/// The harmonic forms among eigenvectors; the eigenvalues if one of them is not that of a
/// harmonic form.
pub fn harmonics_of<T: Scalar>(eigenvals: Vec<T>, eigenvectors: Vec<Vec<T>>) -> (harmonics: Result<
    Vec<Vec<T>>,
    Vec<T>,
>)
    ensures
        harmonics is Ok == all_harmonic(eigenvals@),
        match harmonics {
            Ok(columns) => columns == eigenvectors,
            Err(values) => values == eigenvals,
        },
{
    let bound = reciprocal::<T>(HARMONIC_RESOLUTION);
    let mut i: usize = 0;
    while i < eigenvals.len()
        invariant
            i <= eigenvals@.len(),
            bound == reciprocal_spec::<T>(HARMONIC_RESOLUTION as nat),
            all_harmonic(eigenvals@.take(i as int)),
        decreases eigenvals@.len() - i,
    {
        if !eigenvals[i].is_at_most(bound) {
            return Err(eigenvals);
        }
        proof {
            let t = eigenvals@.take(i + 1);
            assert forall|j: int| 0 <= j < t.len() implies (#[trigger] t[j]).is_at_most_spec(
                bound,
            ) by {
                if j < i {
                    assert(eigenvals@.take(i as int)[j] == t[j]);
                }
            }
        }
        i = i + 1;
    }
    proof {
        assert(eigenvals@.take(i as int) =~= eigenvals@);
    }
    Ok(eigenvectors)
}

} // verus!
