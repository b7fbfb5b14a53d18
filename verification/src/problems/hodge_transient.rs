//! The Hodge-Laplace problem in mixed form over time.

use crate::assemble::dofs::{
    eliminated_rhs, fixed_flags, free_entries, pair_dofs, pairs_within, unit_entries,
};
use crate::assemble::dofs::fix_dofs_coeff_strong_coo;
use crate::assemble::galerkin::GalMat;
use crate::assemble::reconstruction_law::divides_exactly;
use crate::io::fields::Cochain;
use crate::linalg::algebra::{matrix_times, negated_entries, reciprocal_spec};
use crate::linalg::algebra::{add_sparse, mul_vec, reciprocal, zero_vector};
use crate::linalg::csr::compressed;
use crate::linalg::csr::CsrMatrix;
use crate::linalg::ring::commutative_ring;
use crate::linalg::scalar::Scalar;
use crate::linalg::sparse::unset_before_bound;
use crate::linalg::sparse::CooMatrix;
use crate::linalg::vectors::{difference_of, multiple_of, multiplied, sum_of};
use crate::linalg::vectors::{minus, multiple, plus, times};
use crate::problems::elimination::{all_values, masked_pairs};
use crate::problems::elimination::{
    boundary_data_pairs, copy_of, part_of, with_prescribed, MixedSystem,
};
use crate::problems::hodge_laplace::{grade_below, unflagged};
use crate::problems::hodge_laplace::sigma_grade;
use crate::problems::mixed_galmats::free_count;
use crate::problems::mixed_galmats::{count_free, joined, no_flags, MixedGalmats};
use crate::problems::transient::{increasing_to, next_time, valid_time_grid};
use crate::problems::transient_law::{
    solutions_are_steps, step_length, transient_solutions_are_steps,
};
use crate::problems::transient::{validate_time_grid, ThetaMethod};
use crate::text::decimal;
use crate::text::{owned, push_decimal};
use vstd::prelude::*;
use vstd::string::*;

verus! {

/// The two unknowns at a time.
#[derive(Debug, Clone)]
pub struct MixedTransientState<T> {
    pub sigma: Cochain<T>,
    pub u: Cochain<T>,
}

/// A time grid and a method, with the right-hand sides and the prescribed values at each time
/// of the grid.
pub struct MixedTransientConfig<'a, T> {
    pub times: &'a [T],
    pub method: ThetaMethod<T>,
    pub sigma_rhs_at: &'a [Vec<T>],
    pub u_rhs_at: &'a [Vec<T>],
    pub k_strong_bc_mask: Option<&'a [bool]>,
    pub k_strong_bc_data_at: Option<&'a [Vec<T>]>,
    pub k_minus_one_strong_bc_mask: Option<&'a [bool]>,
    pub k_minus_one_strong_bc_data_at: Option<&'a [Vec<T>]>,
}

/// The flags, none set where there are none.
pub open spec fn flags_or_none(mask: Option<&[bool]>, n: nat) -> Seq<bool> {
    match mask {
        Some(flags) => flags@,
        None => unflagged(n),
    }
}

/// The values at a time, zero where there are none.
pub open spec fn data_or_zero<T: Scalar>(data: Option<&[Vec<T>]>, at: int, n: nat) -> Seq<T> {
    match data {
        Some(values) => values@[at]@,
        None => Seq::new(n, |i: int| T::zero_spec()),
    }
}

/// Flags and values for each of `n` dofs, and values at each of `ntimes` times.
pub open spec fn conditions_fit<T>(
    mask: Option<&[bool]>,
    data: Option<&[Vec<T>]>,
    n: nat,
    ntimes: nat,
) -> bool {
    &&& mask is Some ==> mask->0@.len() == n
    &&& data is Some ==> data->0@.len() == ntimes
    &&& data is Some ==> forall|i: int| 0 <= i < ntimes ==> (#[trigger] data->0@[i])@.len() == n
}

impl<'a, T: Scalar> MixedTransientConfig<'a, T> {
    /// There is an entry for each time and each dof.
    pub open spec fn fits(&self, galmats: MixedGalmats<T>) -> bool {
        let ns = galmats.mass_sigma.rows();
        let nu = galmats.mass_u.rows();
        let nt = self.times@.len();
        &&& self.sigma_rhs_at@.len() == nt
        &&& self.u_rhs_at@.len() == nt
        &&& conditions_fit(self.k_strong_bc_mask, self.k_strong_bc_data_at, nu, nt)
        &&& conditions_fit(
            self.k_minus_one_strong_bc_mask,
            self.k_minus_one_strong_bc_data_at,
            ns,
            nt,
        )
    }

    /// The grid goes forward, and flags and values come together.
    pub open spec fn valid(&self) -> bool {
        &&& valid_time_grid(self.times@)
        &&& self.k_strong_bc_mask is Some == self.k_strong_bc_data_at is Some
        &&& self.k_minus_one_strong_bc_mask is Some == self.k_minus_one_strong_bc_data_at is Some
    }

    /// Fails unless the grid goes forward and flags and values come together.
    pub fn validate(&self) -> (checked: Result<(), String>)
        ensures
            checked is Ok == self.valid(),
            checked matches Err(text) ==> if !valid_time_grid(self.times@) {
                if self.times@.len() < 2 {
                    text@ == "time grid must contain at least two entries, got "@ + decimal(
                        self.times@.len(),
                    ) + "."@
                } else {
                    exists|i: int|
                        0 <= i < self.times@.len() - 1 && increasing_to(self.times@, i)
                            && !self.times@[i].is_below_spec(#[trigger] next_time(self.times@, i))
                            && text@ == "time grid must be strictly increasing, but found "@
                            + self.times@[i].display_spec() + " followed by "@ + next_time(
                            self.times@,
                            i,
                        ).display_spec() + "."@
                }
            } else if self.k_strong_bc_mask is Some != self.k_strong_bc_data_at is Some {
                text@
                    == "k-form boundary predicate and data must either both be present or both be absent."@
            } else {
                text@
                    == "k-1-form boundary predicate and data must either both be present or both be absent."@
            },
    {
        match validate_time_grid(self.times) {
            Err(text) => return Err(text),
            Ok(_) => {},
        }
        if self.k_strong_bc_mask.is_some() != self.k_strong_bc_data_at.is_some() {
            return Err(
                owned(
                    "k-form boundary predicate and data must either both be present or both be absent.",
                ),
            );
        }
        if self.k_minus_one_strong_bc_mask.is_some()
            != self.k_minus_one_strong_bc_data_at.is_some() {
            return Err(
                owned(
                    "k-1-form boundary predicate and data must either both be present or both be absent.",
                ),
            );
        }
        Ok(())
    }

    /// The prescribed dofs of the first unknown.
    pub open spec fn sigma_flags(&self, galmats: MixedGalmats<T>) -> Seq<bool> {
        flags_or_none(self.k_minus_one_strong_bc_mask, galmats.mass_sigma.rows())
    }

    /// The prescribed dofs of the second unknown.
    pub open spec fn u_flags(&self, galmats: MixedGalmats<T>) -> Seq<bool> {
        flags_or_none(self.k_strong_bc_mask, galmats.mass_u.rows())
    }

    /// The values of the first unknown at a time.
    pub open spec fn sigma_data(&self, galmats: MixedGalmats<T>, at: int) -> Seq<T> {
        data_or_zero(self.k_minus_one_strong_bc_data_at, at, galmats.mass_sigma.rows())
    }

    /// The values of the second unknown at a time.
    pub open spec fn u_data(&self, galmats: MixedGalmats<T>, at: int) -> Seq<T> {
        data_or_zero(self.k_strong_bc_data_at, at, galmats.mass_u.rows())
    }
}

fn flags_of(mask: Option<&[bool]>, n: usize) -> (flags: Vec<bool>)
    ensures
        flags@ == flags_or_none(mask, n as nat),
{
    match mask {
        Some(flags) => copy_of(flags),
        None => no_flags(n),
    }
}

fn data_of<T: Scalar>(data: Option<&[Vec<T>]>, at: usize, n: usize) -> (values: Vec<T>)
    requires
        data is Some ==> at < data->0@.len(),
    ensures
        values@ == data_or_zero(data, at as int, n as nat),
{
    match data {
        Some(values) => copy_of(values[at].as_slice()),
        None => zero_vector(n),
    }
}

/// A right-hand side has a value for each dof.
pub open spec fn rhs_fault<T: Scalar>(
    rhs: Seq<T>,
    time: T,
    expected: nat,
    label: Seq<char>,
) -> Option<Seq<char>> {
    if rhs.len() != expected {
        Some(
            label + " must have length "@ + decimal(expected) + ", got "@ + decimal(rhs.len())
                + " at time "@ + time.display_spec() + "."@,
        )
    } else {
        None
    }
}

/// Fails unless a right-hand side has a value for each dof.
pub fn rhs_at<T: Scalar>(rhs: &[T], time: T, expected_len: usize, label: &str) -> (checked: Result<
    (),
    String,
>)
    ensures
        match rhs_fault(rhs@, time, expected_len as nat, label@) {
            Some(message) => checked matches Err(text) && text@ == message,
            None => checked is Ok,
        },
{
    if rhs.len() != expected_len {
        let mut text = owned(label);
        text.append(" must have length ");
        push_decimal(&mut text, expected_len);
        text.append(", got ");
        push_decimal(&mut text, rhs.len());
        text.append(" at time ");
        let shown = time.display();
        text.append(shown.as_str());
        text.append(".");
        return Err(text);
    }
    Ok(())
}

/// What is wrong with the initial state of the second unknown.
pub open spec fn initial_u_fault<T: Scalar>(
    galmats: MixedGalmats<T>,
    initial_u: Cochain<T>,
    grade: nat,
) -> Option<Seq<char>> {
    if initial_u.dim != grade {
        Some(
            "initial u cochain must have grade "@ + decimal(grade) + ", got "@ + decimal(
                initial_u.dim as nat,
            ) + "."@,
        )
    } else if initial_u.coeffs@.len() != galmats.mass_u.rows() {
        Some(
            "initial u cochain length must equal "@ + decimal(galmats.mass_u.rows())
                + " dofs, got "@ + decimal(initial_u.coeffs@.len()) + "."@,
        )
    } else {
        None
    }
}

/// Fails unless the initial state of the second unknown has the grade and a value for each dof.
pub fn check_initial_u<T: Scalar>(
    galmats: &MixedGalmats<T>,
    initial_u: &Cochain<T>,
    grade: usize,
) -> (checked: Result<(), String>)
    requires
        galmats.wf(),
    ensures
        match initial_u_fault(*galmats, *initial_u, grade as nat) {
            Some(message) => checked matches Err(text) && text@ == message,
            None => checked is Ok,
        },
{
    if initial_u.dim() != grade {
        let mut text = owned("initial u cochain must have grade ");
        push_decimal(&mut text, grade);
        text.append(", got ");
        push_decimal(&mut text, initial_u.dim());
        text.append(".");
        return Err(text);
    }
    if initial_u.len() != galmats.u_len() {
        let mut text = owned("initial u cochain length must equal ");
        push_decimal(&mut text, galmats.u_len());
        text.append(" dofs, got ");
        push_decimal(&mut text, initial_u.len());
        text.append(".");
        return Err(text);
    }
    Ok(())
}

/// The system for the first unknown that belongs to the second one at a time.
pub open spec fn is_sigma_system<T: Scalar>(
    system: (CsrMatrix<T>, Vec<T>),
    galmats: MixedGalmats<T>,
    u: Seq<T>,
    config: MixedTransientConfig<T>,
    at: int,
) -> bool {
    let ns = galmats.mass_sigma.rows();
    let pairs = if config.k_minus_one_strong_bc_mask is Some
        && config.k_minus_one_strong_bc_data_at is Some {
        masked_pairs(config.sigma_flags(galmats), config.sigma_data(galmats, at))
    } else {
        Seq::empty()
    };
    let flags = fixed_flags(pairs, ns);
    &&& system.0.wf()
    &&& system.0.rows() == ns
    &&& system.0.cols() == ns
    &&& system.0.entries() == compressed(
        free_entries(galmats.mass_sigma.entries(), flags, flags) + unit_entries(pair_dofs(pairs)),
    )
    &&& system.1@ == eliminated_rhs(
        sum_of(
            config.sigma_rhs_at@[at]@,
            matrix_times(compressed(galmats.codif_u.entries()), ns, u),
        ),
        galmats.mass_sigma.entries(),
        pairs,
    )
}

/// The system for the first unknown that belongs to the second one at a time; none if there is
/// no first unknown.
pub fn consistent_sigma_from_u<T: Scalar>(
    galmats: &MixedGalmats<T>,
    u: &Cochain<T>,
    config: &MixedTransientConfig<T>,
    at: usize,
) -> (system: Result<Option<(CsrMatrix<T>, Vec<T>)>, String>)
    requires
        galmats.wf(),
        config.fits(*galmats),
        at < config.times@.len(),
        u.coeffs@.len() == galmats.mass_u.rows(),
    ensures
        if galmats.mass_sigma.rows() == 0 {
            system matches Ok(none) && none is None
        } else {
            match rhs_fault(
                config.sigma_rhs_at@[at as int]@,
                config.times@[at as int],
                galmats.mass_sigma.rows(),
                "sigma rhs"@,
            ) {
                Some(message) => system matches Err(text) && text@ == message,
                None => system matches Ok(some) && some matches Some(s) && is_sigma_system(
                    s,
                    *galmats,
                    u.coeffs@,
                    *config,
                    at as int,
                ),
            }
        },
{
    let ns: usize = galmats.sigma_len();
    if ns == 0 {
        return Ok(None);
    }
    let sigma_rhs: &Vec<T> = &config.sigma_rhs_at[at];
    match rhs_at(sigma_rhs.as_slice(), config.times[at], ns, "sigma rhs") {
        Err(text) => return Err(text),
        Ok(_) => {},
    }
    let mut mass_sigma: GalMat<T> = galmats.mass_sigma.copied();
    let codif_u = CsrMatrix::from_coo(&galmats.codif_u);
    let coupling = mul_vec(&codif_u, u.coeffs.as_slice());
    let mut rhs: Vec<T> = plus(sigma_rhs.as_slice(), coupling.as_slice());
    let flags = flags_of(config.k_minus_one_strong_bc_mask, ns);
    let data = data_of(config.k_minus_one_strong_bc_data_at, at, ns);
    let pairs: Vec<(usize, T)> = if config.k_minus_one_strong_bc_mask.is_some()
        && config.k_minus_one_strong_bc_data_at.is_some() {
        boundary_data_pairs(flags.as_slice(), data.as_slice())
    } else {
        Vec::new()
    };
    proof {
        crate::problems::elimination::masked_pairs_values(flags@, data@);
        assert(pairs_within(pairs@, ns as int));
    }
    fix_dofs_coeff_strong_coo(pairs.as_slice(), &mut mass_sigma, &mut rhs);
    let matrix = CsrMatrix::from_coo(&mass_sigma);
    Ok(Some((matrix, rhs)))
}

/// The distance of two values.
pub open spec fn distance<T: Scalar>(a: T, b: T) -> T {
    let d = a.minus_spec(b);
    if d.is_below_spec(T::zero_spec()) {
        d.negated_spec()
    } else {
        d
    }
}

/// The largest distance of the first `n` values, zero if none is larger.
pub open spec fn largest_distance<T: Scalar>(a: Seq<T>, b: Seq<T>, n: int) -> T
    decreases n,
{
    if n <= 0 {
        T::zero_spec()
    } else {
        let before = largest_distance(a, b, n - 1);
        let d = distance(a[n - 1], b[n - 1]);
        if before.is_below_spec(d) {
            d
        } else {
            before
        }
    }
}

/// How far a given first unknown may be from the one that belongs to the second, as the
/// reciprocal of this number.
pub const CONSISTENCY_RESOLUTION: u64 = 1_000_000_000;

/// What is wrong with a given first unknown.
pub open spec fn initial_sigma_fault<T: Scalar>(
    galmats: MixedGalmats<T>,
    initial_sigma: Cochain<T>,
    consistent: Cochain<T>,
    grade: int,
) -> Option<Seq<char>> {
    let n = galmats.mass_sigma.rows();
    let diff = largest_distance(initial_sigma.coeffs@, consistent.coeffs@, n as int);
    if initial_sigma.dim != grade_below(grade) {
        Some(
            "initial sigma cochain must have grade "@ + decimal(grade_below(grade) as nat)
                + ", got "@ + decimal(initial_sigma.dim as nat) + "."@,
        )
    } else if initial_sigma.coeffs@.len() != n {
        Some(
            "initial sigma cochain length must equal "@ + decimal(n) + " dofs, got "@ + decimal(
                initial_sigma.coeffs@.len(),
            ) + "."@,
        )
    } else if !diff.is_at_most_spec(reciprocal_spec::<T>(CONSISTENCY_RESOLUTION as nat)) {
        Some(
            "initial sigma is inconsistent with the mixed algebraic relation at t0; max abs diff = "@
                + diff.display_spec() + "."@,
        )
    } else {
        None
    }
}

fn largest_difference<T: Scalar>(a: &[T], b: &[T]) -> (d: T)
    requires
        a@.len() == b@.len(),
    ensures
        d == largest_distance(a@, b@, a@.len() as int),
{
    let zero = T::zero();
    let mut largest = zero;
    let mut i: usize = 0;
    while i < a.len()
        invariant
            i <= a@.len(),
            a@.len() == b@.len(),
            zero == T::zero_spec(),
            largest == largest_distance(a@, b@, i as int),
        decreases a@.len() - i,
    {
        let mut d = a[i].minus(b[i]);
        if d.is_below(zero) {
            d = d.negated();
        }
        if largest.is_below(d) {
            largest = d;
        }
        i = i + 1;
    }
    largest
}

/// The first unknown at the beginning: the given one if it belongs to the second, the one that
/// belongs to the second if none is given.
pub fn initial_sigma_from_state<T: Scalar>(
    galmats: &MixedGalmats<T>,
    initial_sigma: Option<Cochain<T>>,
    consistent: Cochain<T>,
    grade: usize,
) -> (sigma: Result<Cochain<T>, String>)
    requires
        galmats.wf(),
        consistent.coeffs@.len() == galmats.mass_sigma.rows(),
    ensures
        match initial_sigma {
            Some(given) => match initial_sigma_fault(*galmats, given, consistent, grade as int) {
                Some(message) => sigma matches Err(text) && text@ == message,
                None => sigma == Ok::<Cochain<T>, String>(given),
            },
            None => sigma == Ok::<Cochain<T>, String>(consistent),
        },
{
    match initial_sigma {
        None => Ok(consistent),
        Some(given) => {
            let below: usize = sigma_grade(grade);
            let n: usize = galmats.sigma_len();
            if given.dim() != below {
                let mut text = owned("initial sigma cochain must have grade ");
                push_decimal(&mut text, below);
                text.append(", got ");
                push_decimal(&mut text, given.dim());
                text.append(".");
                return Err(text);
            }
            if given.len() != n {
                let mut text = owned("initial sigma cochain length must equal ");
                push_decimal(&mut text, n);
                text.append(" dofs, got ");
                push_decimal(&mut text, given.len());
                text.append(".");
                return Err(text);
            }
            let diff = largest_difference(given.coeffs.as_slice(), consistent.coeffs.as_slice());
            if !diff.is_at_most(reciprocal(CONSISTENCY_RESOLUTION)) {
                let mut text = owned(
                    "initial sigma is inconsistent with the mixed algebraic relation at t0; max abs diff = ",
                );
                let shown = diff.display();
                text.append(shown.as_str());
                text.append(".");
                return Err(text);
            }
            Ok(given)
        },
    }
}

/// The system on the free dofs of a mixed problem with the given blocks.
pub fn transient_system_with_strong_bc_via_elimination<'a, T: Scalar>(
    parts: &MixedSystem<'a, T>,
) -> (system: (CsrMatrix<T>, Vec<T>))
    requires
        parts.wf(),
    ensures
        system.0.wf(),
        parts.gives(system.0, system.1@),
{
    let (inner, sigma_rhs, u_rhs): (CooMatrix<T>, Vec<T>, Vec<T>) = parts.eliminate();
    (CsrMatrix::from_coo(&inner), joined(sigma_rhs.as_slice(), u_rhs.as_slice()))
}

/// The right-hand side of the second unknown in a step.
pub open spec fn transient_rhs<T: Scalar>(
    galmats: MixedGalmats<T>,
    prev: MixedTransientState<T>,
    u_rhs_0: Seq<T>,
    u_rhs_1: Seq<T>,
    theta: T,
    dt: T,
) -> Seq<T> {
    let nu = galmats.mass_u.rows();
    let rest = T::one_spec().minus_spec(theta);
    let coupling = sum_of(
        matrix_times(compressed(galmats.dif_sigma.entries()), nu, prev.sigma.coeffs@),
        matrix_times(compressed(galmats.codifdif_u.entries()), nu, prev.u.coeffs@),
    );
    sum_of(
        difference_of(
            multiple_of(
                T::one_spec().over_spec(dt),
                matrix_times(compressed(galmats.mass_u.entries()), nu, prev.u.coeffs@),
            ),
            multiple_of(rest, coupling),
        ),
        sum_of(multiple_of(rest, u_rhs_0), multiple_of(theta, u_rhs_1)),
    )
}

/// The blocks of a step: the second ones are taken to their part at the end of the step, and
/// the mass by the step is added.
pub open spec fn is_transient_parts<T: Scalar>(
    parts: MixedSystem<T>,
    galmats: MixedGalmats<T>,
    prev: MixedTransientState<T>,
    config: MixedTransientConfig<T>,
    at: int,
) -> bool {
    let dt = config.times@[at + 1].minus_spec(config.times@[at]);
    let theta = config.method.value();
    &&& *parts.mass_sigma == galmats.mass_sigma
    &&& parts.codif_u_neg.entries() == negated_entries(galmats.codif_u.entries())
    &&& parts.dif_sigma.entries() == multiplied(theta, compressed(galmats.dif_sigma.entries()))
    &&& parts.u_block.entries() == compressed(
        multiplied(T::one_spec().over_spec(dt), compressed(galmats.mass_u.entries()))
            + multiplied(theta, compressed(galmats.codifdif_u.entries())),
    )
    &&& parts.sigma_rhs@ == config.sigma_rhs_at@[at + 1]@
    &&& parts.u_rhs@ == transient_rhs(
        galmats,
        prev,
        config.u_rhs_at@[at]@,
        config.u_rhs_at@[at + 1]@,
        theta,
        dt,
    )
    &&& parts.sigma_mask@ == config.sigma_flags(galmats)
    &&& parts.sigma_data@ == config.sigma_data(galmats, at + 1)
    &&& parts.u_mask@ == config.u_flags(galmats)
    &&& parts.u_data@ == config.u_data(galmats, at + 1)
}

/// What is wrong with the right-hand sides of a step.
pub open spec fn step_fault<T: Scalar>(
    galmats: MixedGalmats<T>,
    config: MixedTransientConfig<T>,
    at: int,
) -> Option<Seq<char>> {
    let ns = galmats.mass_sigma.rows();
    let nu = galmats.mass_u.rows();
    let sigma = rhs_fault(
        config.sigma_rhs_at@[at + 1]@,
        config.times@[at + 1],
        ns,
        "sigma rhs"@,
    );
    let u_0 = rhs_fault(config.u_rhs_at@[at]@, config.times@[at], nu, "u rhs"@);
    let u_1 = rhs_fault(config.u_rhs_at@[at + 1]@, config.times@[at + 1], nu, "u rhs"@);
    if sigma is Some {
        sigma
    } else if u_0 is Some {
        u_0
    } else {
        u_1
    }
}

/// The state before a step has values for all dofs, and both unknowns have derivatives.
pub open spec fn can_step<T: Scalar>(
    galmats: MixedGalmats<T>,
    prev: MixedTransientState<T>,
    config: MixedTransientConfig<T>,
) -> bool {
    let ns = galmats.mass_sigma.rows();
    let nu = galmats.mass_u.rows();
    &&& galmats.wf()
    &&& galmats.dif_sigma.rows() == nu
    &&& galmats.dif_sigma.cols() == ns
    &&& galmats.codifdif_u.rows() == nu
    &&& prev.sigma.coeffs@.len() == ns
    &&& prev.u.coeffs@.len() == nu
    &&& config.fits(galmats)
    &&& config.valid()
}

/// The system of the step from one time of the grid to the next.
pub fn solve_hodge_laplace_transient_step<T: Scalar>(
    galmats: &MixedGalmats<T>,
    prev: &MixedTransientState<T>,
    config: &MixedTransientConfig<T>,
    at: usize,
) -> (system: Result<(CsrMatrix<T>, Vec<T>), String>)
    requires
        can_step(*galmats, *prev, *config),
        at + 1 < config.times@.len(),
    ensures
        match step_fault(*galmats, *config, at as int) {
            Some(message) => system matches Err(text) && text@ == message,
            None => system matches Ok(s) && s.0.wf() && exists|parts: MixedSystem<T>| #[trigger]
                is_transient_parts(parts, *galmats, *prev, *config, at as int) && parts.gives(
                    s.0,
                    s.1@,
                ) && (commutative_ring::<T>() && divides_exactly(
                step_length(*config, at as int),
            ) ==> solutions_are_steps(s.0, s.1@, *galmats, *prev, *config, at as int)),
        },
{
    let ns: usize = galmats.sigma_len();
    let nu: usize = galmats.u_len();
    let t0 = config.times[at];
    let t1 = config.times[at + 1];
    let dt = t1.minus(t0);
    let theta = config.method.theta();
    let rest = T::one().minus(theta);
    let sigma_rhs: &Vec<T> = &config.sigma_rhs_at[at + 1];
    match rhs_at(sigma_rhs.as_slice(), t1, ns, "sigma rhs") {
        Err(text) => return Err(text),
        Ok(_) => {},
    }
    let u_rhs_0: &Vec<T> = &config.u_rhs_at[at];
    match rhs_at(u_rhs_0.as_slice(), t0, nu, "u rhs") {
        Err(text) => return Err(text),
        Ok(_) => {},
    }
    let u_rhs_1: &Vec<T> = &config.u_rhs_at[at + 1];
    match rhs_at(u_rhs_1.as_slice(), t1, nu, "u rhs") {
        Err(text) => return Err(text),
        Ok(_) => {},
    }
    let u_rhs_theta = plus(
        times(rest, u_rhs_0.as_slice()).as_slice(),
        times(theta, u_rhs_1.as_slice()).as_slice(),
    );
    let dif_sigma = CsrMatrix::from_coo(&galmats.dif_sigma);
    let codifdif_u = CsrMatrix::from_coo(&galmats.codifdif_u);
    let mass_u = galmats.mass_u_csr();
    let prev_coupling = plus(
        mul_vec(&dif_sigma, prev.sigma.coeffs.as_slice()).as_slice(),
        mul_vec(&codifdif_u, prev.u.coeffs.as_slice()).as_slice(),
    );
    let storage = times(
        T::one().over(dt),
        mul_vec(&mass_u, prev.u.coeffs.as_slice()).as_slice(),
    );
    let u_rhs = plus(
        minus(storage.as_slice(), times(rest, prev_coupling.as_slice()).as_slice()).as_slice(),
        u_rhs_theta.as_slice(),
    );
    let dif_sigma_theta = CooMatrix::from_csr(&multiple(theta, &dif_sigma));
    let u_block = CooMatrix::from_csr(
        &add_sparse(&multiple(T::one().over(dt), &mass_u), &multiple(theta, &codifdif_u)),
    );
    let codif_u_neg = galmats.codif_u.neg();
    let sigma_mask = flags_of(config.k_minus_one_strong_bc_mask, ns);
    let sigma_data = data_of(config.k_minus_one_strong_bc_data_at, at + 1, ns);
    let u_mask = flags_of(config.k_strong_bc_mask, nu);
    let u_data = data_of(config.k_strong_bc_data_at, at + 1, nu);
    let parts = MixedSystem {
        mass_sigma: &galmats.mass_sigma,
        codif_u_neg: &codif_u_neg,
        dif_sigma: &dif_sigma_theta,
        u_block: &u_block,
        sigma_rhs: sigma_rhs.as_slice(),
        u_rhs: u_rhs.as_slice(),
        sigma_mask: sigma_mask.as_slice(),
        sigma_data: sigma_data.as_slice(),
        u_mask: u_mask.as_slice(),
        u_data: u_data.as_slice(),
    };
    let system = transient_system_with_strong_bc_via_elimination(&parts);
    proof {
        assert(is_transient_parts(parts, *galmats, *prev, *config, at as int));
        if commutative_ring::<T>() && divides_exactly(step_length(*config, at as int)) {
            transient_solutions_are_steps(
                parts,
                system.0,
                system.1@,
                *galmats,
                *prev,
                *config,
                at as int,
            );
        }
    }
    Ok(system)
}

/// The state that a solution of a step holds.
pub open spec fn is_transient_state<T: Scalar>(
    state: MixedTransientState<T>,
    galmats: MixedGalmats<T>,
    solution: Seq<T>,
    config: MixedTransientConfig<T>,
    at: int,
    grade: int,
) -> bool {
    let s = config.sigma_flags(galmats);
    let u = config.u_flags(galmats);
    let ns = free_count(s) as int;
    let nu = free_count(u) as int;
    &&& state.sigma.dim == grade_below(grade)
    &&& state.sigma.coeffs@ == all_values(
        solution.subrange(0, ns),
        s,
        config.sigma_data(galmats, at),
    )
    &&& state.u.dim == grade
    &&& state.u.coeffs@ == all_values(
        solution.subrange(ns, ns + nu),
        u,
        config.u_data(galmats, at),
    )
}

/// The state at a time of the grid, from a solution of the step that ends there.
pub fn transient_state<T: Scalar>(
    galmats: &MixedGalmats<T>,
    solution: &[T],
    config: &MixedTransientConfig<T>,
    at: usize,
    grade: usize,
) -> (state: MixedTransientState<T>)
    requires
        galmats.wf(),
        config.fits(*galmats),
        at < config.times@.len(),
        free_count(config.sigma_flags(*galmats)) + free_count(config.u_flags(*galmats))
            <= solution@.len(),
    ensures
        is_transient_state(state, *galmats, solution@, *config, at as int, grade as int),
        state.sigma.coeffs@.len() == galmats.mass_sigma.rows(),
        state.u.coeffs@.len() == galmats.mass_u.rows(),
{
    let ns: usize = galmats.sigma_len();
    let nu: usize = galmats.u_len();
    let sigma_mask = flags_of(config.k_minus_one_strong_bc_mask, ns);
    let sigma_data = data_of(config.k_minus_one_strong_bc_data_at, at, ns);
    let u_mask = flags_of(config.k_strong_bc_mask, nu);
    let u_data = data_of(config.k_strong_bc_data_at, at, nu);
    let sigma_len: usize = count_free(sigma_mask.as_slice());
    let u_len: usize = count_free(u_mask.as_slice());
    proof {
        unset_before_bound(sigma_mask@, sigma_mask@.len() as int);
        unset_before_bound(u_mask@, u_mask@.len() as int);
    }
    let free_sigma = part_of(solution, 0, sigma_len);
    let free_u = part_of(solution, sigma_len, sigma_len + u_len);
    let sigma = with_prescribed(
        free_sigma.as_slice(),
        sigma_mask.as_slice(),
        sigma_data.as_slice(),
    );
    let u = with_prescribed(free_u.as_slice(), u_mask.as_slice(), u_data.as_slice());
    MixedTransientState {
        sigma: Cochain { dim: sigma_grade(grade), coeffs: sigma },
        u: Cochain { dim: grade, coeffs: u },
    }
}

/// Each state after the first has the prescribed values of its time.
pub proof fn transient_state_prescribed<T: Scalar>(
    state: MixedTransientState<T>,
    galmats: MixedGalmats<T>,
    solution: Seq<T>,
    config: MixedTransientConfig<T>,
    at: int,
    grade: int,
    i: int,
)
    requires
        is_transient_state(state, galmats, solution, config, at, grade),
        0 <= i < config.u_flags(galmats).len(),
        config.u_flags(galmats)[i],
    ensures
        state.u.coeffs@[i] == config.u_data(galmats, at)[i],
{
}

} // verus!
