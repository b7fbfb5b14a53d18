//! Mass, Laplacian and approximate mass inverses of a grade on its active dofs.

use crate::linalg::csr::compressed;
use crate::linalg::csr::CsrMatrix;
use crate::linalg::algebra::zero_vector;
use crate::linalg::scalar::Scalar;
use crate::problems::hodge_evp::{galmats_of, mixed_elmats};
use crate::problems::laplace_beltrami::LaplaceBeltramiGalmats;
use crate::problems::layout::reduce_square_with_layout;
use crate::problems::mixed_galmats::{elmats_match, mass_entries};
use crate::problems::mixed_galmats::{count_free, MixedGalmats};
use crate::problems::reduced_linear::{
    free_count_of_layout, free_sigma, free_u, inverse_entries, inverse_fault, inverse_fits,
    is_context_system, is_state_layout, on_active, schur_complement, state_fault, window,
    zeros_of,
};
use crate::problems::reduced_linear::{
    assemble_mass_inverse, build_mixed_1form_boundary_context, build_state_layout, complement,
    context_system, ensure_no_auxiliary_regions, split_reduced_mixed_blocks,
    MassInverseApproximation, MixedBoundaryContext,
};
use crate::reduction::no_fault_means_ok;
use crate::reduction::{DofLayout, EssentialBoundarySpec};
use crate::text::decimal;
use crate::text::{owned, push_decimal};
use crate::topology::complex::Complex;
use crate::topology::simplex::Dim;
use vstd::prelude::*;
use vstd::string::*;

verus! {

/// The operators of a grade on its active dofs.
#[derive(Debug, Clone, PartialEq)]
pub struct ReducedHodgeOperators<T> {
    pub mass: CsrMatrix<T>,
    pub laplacian: CsrMatrix<T>,
    pub lower_mass_inverse: Option<CsrMatrix<T>>,
    pub state_mass_inverse: CsrMatrix<T>,
    pub layout: DofLayout<T>,
}

/// Element matrices of the masses of a grade and its neighbours, and of the stiffness.
pub struct HodgeElmats<'a, T> {
    pub mass: &'a Vec<Vec<T>>,
    pub lower_mass: &'a Vec<Vec<T>>,
    pub upper_mass: &'a Vec<Vec<T>>,
    pub stiffness: &'a Vec<Vec<T>>,
}

impl<'a, T: Scalar> HodgeElmats<'a, T> {
    /// The element matrices that the operators of a grade are made of belong to the mesh.
    pub open spec fn wf(&self, topology: &Complex, grade: Dim) -> bool {
        &&& topology.wf()
        &&& grade == 0 ==> elmats_match(topology, 0, self.stiffness@) && elmats_match(
            topology,
            0,
            self.mass@,
        )
        &&& grade > 0 ==> mixed_elmats(
            topology,
            grade,
            self.mass@,
            self.lower_mass@,
            self.upper_mass@,
        )
    }
}

/// Why there are no operators of a grade.
pub open spec fn hodge_fault<T: Scalar>(
    topology: &Complex,
    grade: int,
    boundary: EssentialBoundarySpec<T>,
    lower_inverse: Option<&MassInverseApproximation<T>>,
    state_inverse: MassInverseApproximation<T>,
) -> Option<Seq<char>> {
    let state = inverse_fault(topology, grade as nat, state_inverse);
    if grade == 0 {
        let conditions = state_fault(boundary, topology.simplices(0).len());
        if conditions is Some {
            conditions
        } else {
            state
        }
    } else if lower_inverse is None {
        Some(
            "grade-"@ + decimal(grade as nat) + " Hodge assembly requires a grade-"@ + decimal(
                (grade - 1) as nat,
            ) + " inverse"@,
        )
    } else {
        let conditions = boundary.fault(
            topology.simplices(grade).len(),
            topology.simplices(grade - 1).len(),
        );
        let lower = inverse_fault(topology, (grade - 1) as nat, *lower_inverse->0);
        if conditions is Some {
            conditions
        } else if lower is Some {
            lower
        } else {
            state
        }
    }
}

/// The operators of functions.
pub open spec fn is_scalar_operators<T: Scalar>(
    ops: ReducedHodgeOperators<T>,
    topology: &Complex,
    elmats: HodgeElmats<T>,
    boundary: EssentialBoundarySpec<T>,
    state_inverse: MassInverseApproximation<T>,
) -> bool {
    &&& is_state_layout(ops.layout, topology.simplices(0).len(), boundary.state@)
    &&& on_active(ops.mass, compressed(mass_entries(topology, 0, elmats.mass@)), ops.layout)
    &&& on_active(
        ops.laplacian,
        compressed(mass_entries(topology, 0, elmats.stiffness@)),
        ops.layout,
    )
    &&& ops.lower_mass_inverse is None
    &&& on_active(
        ops.state_mass_inverse,
        inverse_entries(topology, 0, elmats.mass@, state_inverse),
        ops.layout,
    )
}

/// The Laplacian of a mixed problem with an inverse of the mass of the first unknown.
pub open spec fn is_laplacian<T: Scalar>(
    laplacian: CsrMatrix<T>,
    galmats: MixedGalmats<T>,
    boundary: EssentialBoundarySpec<T>,
    lower: Seq<(usize, usize, T)>,
) -> bool {
    let s = free_sigma(galmats, boundary);
    let u = free_u(galmats, boundary);
    &&& laplacian.wf()
    &&& laplacian.rows() == u
    &&& laplacian.cols() == u
    &&& exists|system: (CsrMatrix<T>, Vec<T>)| #[trigger]
        is_context_system(
            system,
            galmats,
            boundary,
            zeros_of(galmats.mass_sigma.rows()),
            zeros_of(galmats.mass_u.rows()),
        ) && laplacian.entries() == laplacian_entries(system.0.entries(), lower, s, u)
}

/// The last block of a mixed matrix and, where there is a first unknown, its complement.
pub open spec fn laplacian_entries<T: Scalar>(
    mixed: Seq<(usize, usize, T)>,
    lower: Seq<(usize, usize, T)>,
    s: int,
    u: int,
) -> Seq<(usize, usize, T)> {
    let k = compressed(window(mixed, (s, s + u), (s, s + u)));
    if s == 0 {
        k
    } else {
        schur_complement(
            k,
            compressed(window(mixed, (s, s + u), (0, s))),
            lower,
            compressed(window(mixed, (0, s), (s, s + u))),
        )
    }
}

/// The operators of forms of a grade above zero.
pub open spec fn is_form_operators<T: Scalar>(
    ops: ReducedHodgeOperators<T>,
    galmats: MixedGalmats<T>,
    topology: &Complex,
    grade: int,
    elmats: HodgeElmats<T>,
    boundary: EssentialBoundarySpec<T>,
    lower_layout: DofLayout<T>,
    lower_inverse: MassInverseApproximation<T>,
    state_inverse: MassInverseApproximation<T>,
) -> bool {
    &&& is_state_layout(ops.layout, galmats.mass_u.rows(), boundary.state@)
    &&& is_state_layout(lower_layout, galmats.mass_sigma.rows(), boundary.auxiliary@)
    &&& on_active(ops.mass, compressed(galmats.mass_u.entries()), ops.layout)
    &&& ops.lower_mass_inverse matches Some(lower) && on_active(
        lower,
        inverse_entries(topology, grade - 1, elmats.lower_mass@, lower_inverse),
        lower_layout,
    ) && is_laplacian(ops.laplacian, galmats, boundary, lower.entries())
    &&& on_active(
        ops.state_mass_inverse,
        inverse_entries(topology, grade, elmats.mass@, state_inverse),
        ops.layout,
    )
}

/// The operators of forms of a grade above zero, with what they are made of.
pub open spec fn has_form_operators<T: Scalar>(
    ops: ReducedHodgeOperators<T>,
    topology: &Complex,
    grade: Dim,
    elmats: HodgeElmats<T>,
    boundary: EssentialBoundarySpec<T>,
    lower_inverse: MassInverseApproximation<T>,
    state_inverse: MassInverseApproximation<T>,
) -> bool {
    exists|galmats: MixedGalmats<T>, lower_layout: DofLayout<T>|
        galmats_of(
            galmats,
            topology,
            grade,
            elmats.mass@,
            elmats.lower_mass@,
            elmats.upper_mass@,
        ) && #[trigger] is_form_operators(
            ops,
            galmats,
            topology,
            grade as int,
            elmats,
            boundary,
            lower_layout,
            lower_inverse,
            state_inverse,
        )
}

fn scalar_operators<T: Scalar>(
    topology: &Complex,
    elmats: &HodgeElmats<T>,
    boundary: &EssentialBoundarySpec<T>,
    state_inverse: &MassInverseApproximation<T>,
) -> (ops: Result<ReducedHodgeOperators<T>, String>)
    requires
        elmats.wf(topology, 0),
        inverse_fits(topology, 0, *state_inverse),
    ensures
        match hodge_fault(topology, 0, *boundary, None, *state_inverse) {
            Some(message) => ops matches Err(text) && text@ == message,
            None => ops matches Ok(o) && is_scalar_operators(
                o,
                topology,
                *elmats,
                *boundary,
                *state_inverse,
            ),
        },
{
    match ensure_no_auxiliary_regions(boundary) {
        Err(text) => return Err(text),
        Ok(_) => {},
    }
    let galmats = LaplaceBeltramiGalmats::compute(topology, elmats.stiffness, elmats.mass);
    let mass_csr = galmats.mass_csr();
    let layout: DofLayout<T> = match build_state_layout(
        mass_csr.nrows(),
        boundary.state.as_slice(),
    ) {
        Err(text) => return Err(text),
        Ok(layout) => layout,
    };
    let mass: CsrMatrix<T> = match reduce_square_with_layout(&mass_csr, &layout) {
        Err(text) => return Err(text),
        Ok(m) => m,
    };
    let laplacian: CsrMatrix<T> = match reduce_square_with_layout(
        &galmats.stiffness_csr(),
        &layout,
    ) {
        Err(text) => return Err(text),
        Ok(m) => m,
    };
    let inverse: CsrMatrix<T> = match assemble_mass_inverse(
        topology,
        0,
        elmats.mass,
        state_inverse,
    ) {
        Err(text) => return Err(text),
        Ok(m) => m,
    };
    let state_mass_inverse: CsrMatrix<T> = match reduce_square_with_layout(&inverse, &layout) {
        Err(text) => return Err(text),
        Ok(m) => m,
    };
    Ok(
        ReducedHodgeOperators {
            mass,
            laplacian,
            lower_mass_inverse: None,
            state_mass_inverse,
            layout,
        },
    )
}

fn form_operators<T: Scalar>(
    topology: &Complex,
    grade: Dim,
    elmats: &HodgeElmats<T>,
    boundary: &EssentialBoundarySpec<T>,
    lower_inverse: &MassInverseApproximation<T>,
    state_inverse: &MassInverseApproximation<T>,
) -> (ops: Result<ReducedHodgeOperators<T>, String>)
    requires
        grade > 0,
        elmats.wf(topology, grade),
        inverse_fits(topology, grade as int, *state_inverse),
        inverse_fits(topology, grade - 1, *lower_inverse),
    ensures
        match hodge_fault(topology, grade as int, *boundary, Some(lower_inverse), *state_inverse) {
            Some(message) => ops matches Err(text) && text@ == message,
            None => ops matches Ok(o) && has_form_operators(
                o,
                topology,
                grade,
                *elmats,
                *boundary,
                *lower_inverse,
                *state_inverse,
            ),
        },
{
    let galmats = MixedGalmats::compute(
        topology,
        grade,
        elmats.mass,
        elmats.lower_mass,
        elmats.upper_mass,
    );
    let context: MixedBoundaryContext<T> = match build_mixed_1form_boundary_context(
        &galmats,
        boundary,
    ) {
        Err(text) => return Err(text),
        Ok(context) => context,
    };
    let sigma_rhs = zero_vector::<T>(galmats.sigma_len());
    let u_rhs = zero_vector::<T>(galmats.u_len());
    let system = context_system(
        &galmats,
        &context,
        sigma_rhs.as_slice(),
        u_rhs.as_slice(),
        Ghost(*boundary),
    );
    proof {
        assert(sigma_rhs@ =~= zeros_of::<T>(galmats.mass_sigma.rows()));
        assert(u_rhs@ =~= zeros_of::<T>(galmats.mass_u.rows()));
        no_fault_means_ok("auxiliary"@, galmats.mass_sigma.rows(), boundary.auxiliary@);
        no_fault_means_ok("layout"@, galmats.mass_sigma.rows(), boundary.auxiliary@);
    }
    let reduced_sigma_len: usize = count_free(context.auxiliary_mask.as_slice());
    let reduced_u_len: usize = count_free(context.state_mask.as_slice());
    let rhs_len: usize = system.1.len();
    let (_, a12, a21, codifdif) = split_reduced_mixed_blocks(
        &system.0,
        reduced_sigma_len,
        reduced_u_len,
    );
    let lower_layout: DofLayout<T> = match build_state_layout(
        galmats.sigma_len(),
        boundary.auxiliary.as_slice(),
    ) {
        Err(text) => return Err(text),
        Ok(layout) => layout,
    };
    let lower_full: CsrMatrix<T> = match assemble_mass_inverse(
        topology,
        grade - 1,
        elmats.lower_mass,
        lower_inverse,
    ) {
        Err(text) => return Err(text),
        Ok(m) => m,
    };
    let lower: CsrMatrix<T> = match reduce_square_with_layout(&lower_full, &lower_layout) {
        Err(text) => return Err(text),
        Ok(m) => m,
    };
    proof {
        free_count_of_layout(lower_layout);
    }
    let laplacian: CsrMatrix<T> = if reduced_sigma_len == 0 {
        codifdif
    } else {
        complement(&codifdif, &a21, &lower, &a12)
    };
    let mass: CsrMatrix<T> = match reduce_square_with_layout(
        &galmats.mass_u_csr(),
        &context.layout,
    ) {
        Err(text) => return Err(text),
        Ok(m) => m,
    };
    let state_full: CsrMatrix<T> = match assemble_mass_inverse(
        topology,
        grade,
        elmats.mass,
        state_inverse,
    ) {
        Err(text) => return Err(text),
        Ok(m) => m,
    };
    let state_mass_inverse: CsrMatrix<T> = match reduce_square_with_layout(
        &state_full,
        &context.layout,
    ) {
        Err(text) => return Err(text),
        Ok(m) => m,
    };
    let ops = ReducedHodgeOperators {
        mass,
        laplacian,
        lower_mass_inverse: Some(lower),
        state_mass_inverse,
        layout: context.layout,
    };
    proof {
        assert(is_context_system(
            system,
            galmats,
            *boundary,
            zeros_of(galmats.mass_sigma.rows()),
            zeros_of(galmats.mass_u.rows()),
        ));
        assert(is_laplacian(ops.laplacian, galmats, *boundary, lower.entries()));
        assert(is_form_operators(
            ops,
            galmats,
            topology,
            grade as int,
            *elmats,
            *boundary,
            lower_layout,
            *lower_inverse,
            *state_inverse,
        ));
    }
    Ok(ops)
}

/// The operators of a grade on its active dofs. A grade above zero needs an inverse of the
/// mass of the grade below.
pub fn assemble_reduced_hodge_operators<T: Scalar>(
    topology: &Complex,
    grade: Dim,
    elmats: &HodgeElmats<T>,
    boundary: &EssentialBoundarySpec<T>,
    lower_inverse: Option<&MassInverseApproximation<T>>,
    state_inverse: &MassInverseApproximation<T>,
) -> (ops: Result<ReducedHodgeOperators<T>, String>)
    requires
        elmats.wf(topology, grade),
        inverse_fits(topology, grade as int, *state_inverse),
        grade > 0 && lower_inverse is Some ==> inverse_fits(topology, grade - 1, *lower_inverse->0),
    ensures
        match hodge_fault(topology, grade as int, *boundary, lower_inverse, *state_inverse) {
            Some(message) => ops matches Err(text) && text@ == message,
            None => ops matches Ok(o) && if grade == 0 {
                is_scalar_operators(o, topology, *elmats, *boundary, *state_inverse)
            } else {
                has_form_operators(
                    o,
                    topology,
                    grade,
                    *elmats,
                    *boundary,
                    *lower_inverse->0,
                    *state_inverse,
                )
            },
        },
{
    if grade == 0 {
        return scalar_operators(topology, elmats, boundary, state_inverse);
    }
    match lower_inverse {
        None => {
            let mut text = owned("grade-");
            push_decimal(&mut text, grade);
            text.append(" Hodge assembly requires a grade-");
            push_decimal(&mut text, grade - 1);
            text.append(" inverse");
            Err(text)
        },
        Some(lower) => form_operators(topology, grade, elmats, boundary, lower, state_inverse),
    }
}

} // verus!
