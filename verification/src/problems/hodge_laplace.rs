//! The source problem of the Hodge Laplacian in mixed form.

use crate::io::fields::Cochain;
use crate::linalg::algebra::zero_vector;
use crate::linalg::blocks::block_entries;
use crate::linalg::csr::CsrMatrix;
use crate::linalg::scalar::Scalar;
use crate::linalg::sparse::unset_before_bound;
use crate::linalg::sparse::CooMatrix;
use crate::problems::elimination::all_values;
use crate::problems::elimination::{part_of, with_prescribed, MixedSystem};
use crate::problems::mixed_galmats::free_count;
use crate::problems::mixed_galmats::{count_free, no_flags, MixedGalmats};
use crate::text::decimal;
use crate::text::{owned, push_decimal};
use vstd::prelude::*;
use vstd::string::*;

verus! {

/// The grade of the first unknown.
pub open spec fn grade_below(grade: int) -> int {
    if grade == 0 {
        0
    } else {
        grade - 1
    }
}

/// The grade of the first unknown.
pub fn sigma_grade(grade: usize) -> (below: usize)
    ensures
        below == grade_below(grade as int),
{
    if grade == 0 {
        0
    } else {
        grade - 1
    }
}

/// Which dofs of the two unknowns are prescribed, with which values.
pub struct StrongConditions<'a, T> {
    pub k_minus_one_mask: &'a [bool],
    pub k_minus_one_data: &'a [T],
    pub k_mask: &'a [bool],
    pub k_data: &'a [T],
}

impl<'a, T: Scalar> StrongConditions<'a, T> {
    /// A flag and a value for each dof.
    pub open spec fn wf(&self, galmats: MixedGalmats<T>) -> bool {
        &&& self.k_minus_one_mask@.len() == galmats.mass_sigma.rows()
        &&& self.k_minus_one_data@.len() == galmats.mass_sigma.rows()
        &&& self.k_mask@.len() == galmats.mass_u.rows()
        &&& self.k_data@.len() == galmats.mass_u.rows()
    }
}

/// What is wrong with the right-hand sides of the source problem.
pub open spec fn source_rhs_fault<T: Scalar>(
    galmats: MixedGalmats<T>,
    sigma_vec: Option<Seq<T>>,
    u_vec: Seq<T>,
) -> Option<Seq<char>> {
    let ns = galmats.mass_sigma.rows();
    let nu = galmats.mass_u.rows();
    if sigma_vec is Some && sigma_vec->0.len() != ns {
        Some(
            "sigma rhs must have full length "@ + decimal(ns) + ", got "@ + decimal(
                sigma_vec->0.len(),
            ) + "."@,
        )
    } else if u_vec.len() != nu {
        Some(
            "u rhs must have full length "@ + decimal(nu) + ", got "@ + decimal(u_vec.len())
                + "."@,
        )
    } else {
        None
    }
}

/// An optional list as a sequence.
pub open spec fn optional_seq<T>(values: Option<Vec<T>>) -> Option<Seq<T>> {
    match values {
        Some(v) => Some(v@),
        None => None,
    }
}

/// A right-hand side, zero where none is given.
pub open spec fn or_zeros<T: Scalar>(values: Option<Seq<T>>, n: nat) -> Seq<T> {
    match values {
        Some(v) => v,
        None => Seq::new(n, |i: int| T::zero_spec()),
    }
}

/// The system of the source problem with the prescribed dofs eliminated, bordered by the
/// harmonic constraint.
pub open spec fn is_source_system<T: Scalar>(
    system: (CsrMatrix<T>, Vec<T>),
    galmats: MixedGalmats<T>,
    sigma_rhs: Seq<T>,
    u_rhs: Seq<T>,
    harmonics: Seq<Vec<T>>,
    s: Seq<bool>,
    s_data: Seq<T>,
    u: Seq<bool>,
    u_data: Seq<T>,
) -> bool {
    &&& system.0.wf()
    &&& exists|a: CooMatrix<T>, b: CooMatrix<T>, c: CooMatrix<T>, d: CooMatrix<T>|
        #![trigger block_entries(a, b, c, d)]
        galmats.is_bordered_system(
            system.0.entries(),
            system.0.rows(),
            system.0.cols(),
            s,
            u,
            harmonics,
            a,
            b,
            c,
            d,
        )
    &&& exists|parts: MixedSystem<T>| #[trigger]
        galmats.is_system(parts, s, s_data, u, u_data, sigma_rhs, u_rhs) && system.1@
            == parts.free_sigma_rhs() + parts.free_u_rhs() + (if harmonics.len() > 0 {
            galmats.harmonic_rhs(u, u_data, harmonics)
        } else {
            Seq::empty()
        })
}

/// The harmonic columns are given on the free dofs, and the system can be numbered.
pub open spec fn harmonics_match<T: Scalar>(
    galmats: MixedGalmats<T>,
    harmonics: Seq<Vec<T>>,
    u: Seq<bool>,
) -> bool {
    &&& forall|c: int|
        0 <= c < harmonics.len() ==> (#[trigger] harmonics[c])@.len() == free_count(u)
    &&& harmonics.len() > 0 ==> galmats.mass_sigma.rows() > 0 || galmats.codifdif_u.rows()
        == galmats.mass_u.rows()
    &&& galmats.mass_sigma.rows() + galmats.mass_u.rows() + harmonics.len() <= usize::MAX
}

fn check_source_rhs<T: Scalar>(
    galmats: &MixedGalmats<T>,
    sigma_vec: Option<Vec<T>>,
    u_vec: &Vec<T>,
) -> (checked: Result<Vec<T>, String>)
    requires
        galmats.wf(),
    ensures
        match source_rhs_fault(*galmats, optional_seq(sigma_vec), u_vec@) {
            Some(message) => checked matches Err(text) && text@ == message,
            None => checked matches Ok(rhs) && rhs@ == or_zeros(
                optional_seq(sigma_vec),
                galmats.mass_sigma.rows(),
            ),
        },
{
    let ns: usize = galmats.sigma_len();
    let nu: usize = galmats.u_len();
    let sigma_rhs: Vec<T> = match sigma_vec {
        Some(rhs) => {
            if rhs.len() != ns {
                let mut text = owned("sigma rhs must have full length ");
                push_decimal(&mut text, ns);
                text.append(", got ");
                push_decimal(&mut text, rhs.len());
                text.append(".");
                return Err(text);
            }
            rhs
        },
        None => zero_vector(ns),
    };
    if u_vec.len() != nu {
        let mut text = owned("u rhs must have full length ");
        push_decimal(&mut text, nu);
        text.append(", got ");
        push_decimal(&mut text, u_vec.len());
        text.append(".");
        return Err(text);
    }
    Ok(sigma_rhs)
}

/// The system of the source problem with prescribed dofs. Right-hand sides are given on all
/// dofs, that of the first unknown may be missing.
pub fn solve_hodge_laplace_source_with_galmats_and_boundary_conditions<T: Scalar>(
    galmats: &MixedGalmats<T>,
    sigma_vec: Option<Vec<T>>,
    u_vec: Vec<T>,
    harmonics: &[Vec<T>],
    conditions: &StrongConditions<T>,
) -> (system: Result<(CsrMatrix<T>, Vec<T>), String>)
    requires
        galmats.wf(),
        conditions.wf(*galmats),
        harmonics_match(*galmats, harmonics@, conditions.k_mask@),
    ensures
        match source_rhs_fault(*galmats, optional_seq(sigma_vec), u_vec@) {
            Some(message) => system matches Err(text) && text@ == message,
            None => system matches Ok(s) && is_source_system(
                s,
                *galmats,
                or_zeros(optional_seq(sigma_vec), galmats.mass_sigma.rows()),
                u_vec@,
                harmonics@,
                conditions.k_minus_one_mask@,
                conditions.k_minus_one_data@,
                conditions.k_mask@,
                conditions.k_data@,
            ),
        },
{
    let mut sigma_rhs: Vec<T> = match check_source_rhs(galmats, sigma_vec, &u_vec) {
        Ok(rhs) => rhs,
        Err(text) => return Err(text),
    };
    let mut u_rhs: Vec<T> = u_vec;
    Ok(
        galmats.mixed_hodge_laplacian_with_strong_bc_via_elimination(
            conditions.k_minus_one_mask,
            conditions.k_minus_one_data,
            conditions.k_mask,
            conditions.k_data,
            &mut sigma_rhs,
            &mut u_rhs,
            harmonics,
        ),
    )
}

/// No flag for any of `n` dofs.
pub open spec fn unflagged(n: nat) -> Seq<bool> {
    Seq::new(n, |i: int| false)
}

/// Without flags every dof is free.
pub proof fn unflagged_count(n: nat)
    ensures
        free_count(unflagged(n)) == n,
    decreases n,
{
    lemma_unflagged_before(n, n as int);
}

proof fn lemma_unflagged_before(n: nat, k: int)
    requires
        0 <= k <= n,
    ensures
        crate::linalg::sparse::unset_before(unflagged(n), k) == k,
    decreases k,
{
    if k > 0 {
        lemma_unflagged_before(n, k - 1);
    }
}

/// The system of the source problem without prescribed dofs.
pub fn solve_hodge_laplace_source_with_galmats<T: Scalar>(
    galmats: &MixedGalmats<T>,
    sigma_vec: Option<Vec<T>>,
    u_vec: Vec<T>,
    harmonics: &[Vec<T>],
) -> (system: Result<(CsrMatrix<T>, Vec<T>), String>)
    requires
        galmats.wf(),
        harmonics_match(*galmats, harmonics@, unflagged(galmats.mass_u.rows())),
    ensures
        match source_rhs_fault(*galmats, optional_seq(sigma_vec), u_vec@) {
            Some(message) => system matches Err(text) && text@ == message,
            None => system matches Ok(s) && is_source_system(
                s,
                *galmats,
                or_zeros(optional_seq(sigma_vec), galmats.mass_sigma.rows()),
                u_vec@,
                harmonics@,
                unflagged(galmats.mass_sigma.rows()),
                Seq::new(galmats.mass_sigma.rows(), |i: int| T::zero_spec()),
                unflagged(galmats.mass_u.rows()),
                Seq::new(galmats.mass_u.rows(), |i: int| T::zero_spec()),
            ),
        },
{
    let k_minus_one_mask = no_flags(galmats.sigma_len());
    let k_minus_one_data = zero_vector::<T>(galmats.sigma_len());
    let k_mask = no_flags(galmats.u_len());
    let k_data = zero_vector::<T>(galmats.u_len());
    proof {
        assert(k_mask@ =~= unflagged(galmats.mass_u.rows()));
        assert(k_minus_one_mask@ =~= unflagged(galmats.mass_sigma.rows()));
    }
    let conditions = StrongConditions {
        k_minus_one_mask: k_minus_one_mask.as_slice(),
        k_minus_one_data: k_minus_one_data.as_slice(),
        k_mask: k_mask.as_slice(),
        k_data: k_data.as_slice(),
    };
    solve_hodge_laplace_source_with_galmats_and_boundary_conditions(
        galmats,
        sigma_vec,
        u_vec,
        harmonics,
        &conditions,
    )
}

/// The two unknowns and the harmonic part that a solution of the system holds.
pub open spec fn is_source_solution<T: Scalar>(
    parts: (Cochain<T>, Cochain<T>, Cochain<T>),
    solution: Seq<T>,
    grade: int,
    s: Seq<bool>,
    s_data: Seq<T>,
    u: Seq<bool>,
    u_data: Seq<T>,
) -> bool {
    let ns = free_count(s) as int;
    let nu = free_count(u) as int;
    &&& parts.0.dim == grade_below(grade)
    &&& parts.0.coeffs@ == all_values(solution.subrange(0, ns), s, s_data)
    &&& parts.1.dim == grade
    &&& parts.1.coeffs@ == all_values(solution.subrange(ns, ns + nu), u, u_data)
    &&& parts.2.dim == grade
    &&& parts.2.coeffs@ == solution.subrange(ns + nu, solution.len() as int)
}

/// The two unknowns on all dofs and the harmonic part, from a solution of the system.
pub fn source_solution<T: Scalar>(
    galmats: &MixedGalmats<T>,
    grade: usize,
    conditions: &StrongConditions<T>,
    solution: &[T],
) -> (parts: (Cochain<T>, Cochain<T>, Cochain<T>))
    requires
        galmats.wf(),
        conditions.wf(*galmats),
        free_count(conditions.k_minus_one_mask@) + free_count(conditions.k_mask@)
            <= solution@.len(),
    ensures
        is_source_solution(
            parts,
            solution@,
            grade as int,
            conditions.k_minus_one_mask@,
            conditions.k_minus_one_data@,
            conditions.k_mask@,
            conditions.k_data@,
        ),
{
    let sigma_len: usize = count_free(conditions.k_minus_one_mask);
    let u_len: usize = count_free(conditions.k_mask);
    proof {
        unset_before_bound(
            conditions.k_minus_one_mask@,
            conditions.k_minus_one_mask@.len() as int,
        );
        unset_before_bound(conditions.k_mask@, conditions.k_mask@.len() as int);
    }
    let free_sigma = part_of(solution, 0, sigma_len);
    let free_u = part_of(solution, sigma_len, sigma_len + u_len);
    let p = part_of(solution, sigma_len + u_len, solution.len());
    let sigma = with_prescribed(
        free_sigma.as_slice(),
        conditions.k_minus_one_mask,
        conditions.k_minus_one_data,
    );
    let u = with_prescribed(free_u.as_slice(), conditions.k_mask, conditions.k_data);
    (
        Cochain { dim: sigma_grade(grade), coeffs: sigma },
        Cochain { dim: grade, coeffs: u },
        Cochain { dim: grade, coeffs: p },
    )
}

/// A solution of the source problem has the prescribed values at the prescribed dofs.
pub proof fn source_solution_prescribed<T: Scalar>(
    parts: (Cochain<T>, Cochain<T>, Cochain<T>),
    solution: Seq<T>,
    grade: int,
    s: Seq<bool>,
    s_data: Seq<T>,
    u: Seq<bool>,
    u_data: Seq<T>,
)
    requires
        is_source_solution(parts, solution, grade, s, s_data, u, u_data),
    ensures
        forall|i: int| 0 <= i < s.len() && s[i] ==> parts.0.coeffs@[i] == s_data[i],
        forall|i: int| 0 <= i < u.len() && u[i] ==> parts.1.coeffs@[i] == u_data[i],
{
}

/// Without prescribed dofs the two unknowns are the parts of the solution as they stand.
pub proof fn source_solution_plain<T: Scalar>(
    parts: (Cochain<T>, Cochain<T>, Cochain<T>),
    solution: Seq<T>,
    grade: int,
    ns: nat,
    nu: nat,
    s_data: Seq<T>,
    u_data: Seq<T>,
)
    requires
        is_source_solution(parts, solution, grade, unflagged(ns), s_data, unflagged(nu), u_data),
        ns + nu <= solution.len(),
    ensures
        parts.0.coeffs@ == solution.subrange(0, ns as int),
        parts.1.coeffs@ == solution.subrange(ns as int, (ns + nu) as int),
{
    unflagged_count(ns);
    unflagged_count(nu);
    let a = solution.subrange(0, ns as int);
    let b = solution.subrange(ns as int, (ns + nu) as int);
    assert forall|i: int| 0 <= i < ns implies all_values(a, unflagged(ns), s_data)[i] == a[i] by {
        lemma_unflagged_before(ns, i);
    }
    assert forall|i: int| 0 <= i < nu implies all_values(b, unflagged(nu), u_data)[i] == b[i] by {
        lemma_unflagged_before(nu, i);
    }
    assert(all_values(a, unflagged(ns), s_data) =~= a);
    assert(all_values(b, unflagged(nu), u_data) =~= b);
}

} // verus!
