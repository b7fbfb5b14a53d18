//! One-step methods in time.

use crate::assemble::reconstruction_law::divides_exactly;
use crate::linalg::algebra::reciprocal_spec;
use crate::linalg::algebra::reciprocal;
use crate::linalg::ring::{commutative_ring, ring_units};
use crate::linalg::scalar::Scalar;
use crate::problems::triangle_law::lemma_halves;
use crate::text::decimal;
use crate::text::{owned, push_decimal};
use vstd::prelude::*;
use vstd::string::*;

verus! {

/// A method that takes the right-hand side to the part `theta` at the end of a step and to the
/// rest at its beginning.
#[derive(Debug, Clone, Copy, PartialEq)]
pub struct ThetaMethod<T>(T);

/// Between one half and one.
pub open spec fn stable_theta<T: Scalar>(theta: T) -> bool {
    reciprocal_spec::<T>(2).is_at_most_spec(theta) && theta.is_at_most_spec(T::one_spec())
}

impl<T: Scalar> ThetaMethod<T> {
    pub closed spec fn value(&self) -> T {
        self.0
    }

    /// All at the end of the step.
    pub fn backward_euler() -> (method: Self)
        ensures
            method.value() == T::one_spec(),
    {
        ThetaMethod(T::one())
    }

    /// Half at the beginning and half at the end.
    pub fn crank_nicolson() -> (method: Self)
        ensures
            method.value() == reciprocal_spec::<T>(2),
            commutative_ring::<T>() && divides_exactly(T::from_count_spec(2))
                ==> method.value().plus_spec(method.value()) == T::one_spec(),
    {
        proof {
            if commutative_ring::<T>() && divides_exactly(T::from_count_spec(2)) {
                lemma_halves(T::one_spec());
                ring_units(reciprocal_spec::<T>(2));
            }
        }
        ThetaMethod(reciprocal(2))
    }

    /// The method with the given part at the end of the step; fails unless it is between one
    /// half and one.
    pub fn new(theta: T) -> (method: Result<Self, String>)
        ensures
            method is Ok == stable_theta(theta),
            match method {
                Ok(m) => m.value() == theta,
                Err(text) => text@ == "theta must satisfy 0.5 <= theta <= 1.0, got "@
                    + theta.display_spec() + "."@,
            },
    {
        if !(reciprocal::<T>(2).is_at_most(theta) && theta.is_at_most(T::one())) {
            let mut text = owned("theta must satisfy 0.5 <= theta <= 1.0, got ");
            let shown = theta.display();
            text.append(shown.as_str());
            text.append(".");
            return Err(text);
        }
        Ok(ThetaMethod(theta))
    }

    pub fn theta(self) -> (theta: T)
        ensures
            theta == self.value(),
    {
        self.0
    }
}

impl<T: Scalar> Default for ThetaMethod<T> {
    fn default() -> (method: Self)
        ensures
            method.value() == T::one_spec(),
    {
        ThetaMethod::backward_euler()
    }
}

/// The first `n` steps of a time grid go forward.
pub open spec fn increasing_to<T: Scalar>(times: Seq<T>, n: int) -> bool {
    forall|i: int| 0 <= i < n ==> times[i].is_below_spec(#[trigger] next_time(times, i))
}

/// The end of a step.
pub open spec fn next_time<T>(times: Seq<T>, i: int) -> T {
    times[i + 1]
}

/// At least two times, each later than the one before.
pub open spec fn valid_time_grid<T: Scalar>(times: Seq<T>) -> bool {
    times.len() >= 2 && increasing_to(times, times.len() - 1)
}

/// Fails unless a time grid has at least two times, each later than the one before.
pub fn validate_time_grid<T: Scalar>(times: &[T]) -> (checked: Result<(), String>)
    ensures
        checked is Ok == valid_time_grid(times@),
        checked matches Err(text) ==> if times@.len() < 2 {
            text@ == "time grid must contain at least two entries, got "@ + decimal(times@.len())
                + "."@
        } else {
            exists|i: int|
                0 <= i < times@.len() - 1 && increasing_to(times@, i) && !times@[i].is_below_spec(
                    #[trigger] next_time(times@, i),
                ) && text@ == "time grid must be strictly increasing, but found "@
                    + times@[i].display_spec() + " followed by "@ + next_time(
                    times@,
                    i,
                ).display_spec() + "."@
        },
{
    if times.len() < 2 {
        let mut text = owned("time grid must contain at least two entries, got ");
        push_decimal(&mut text, times.len());
        text.append(".");
        return Err(text);
    }
    let mut i: usize = 0;
    while i < times.len() - 1
        invariant
            i <= times@.len() - 1,
            times@.len() >= 2,
            increasing_to(times@, i as int),
        decreases times@.len() - i,
    {
        let t0 = times[i];
        let t1 = times[i + 1];
        proof {
            assert(t1 == next_time(times@, i as int));
        }
        if !t0.is_below(t1) {
            let mut text = owned("time grid must be strictly increasing, but found ");
            let shown = t0.display();
            text.append(shown.as_str());
            text.append(" followed by ");
            let shown = t1.display();
            text.append(shown.as_str());
            text.append(".");
            return Err(text);
        }
        i = i + 1;
    }
    Ok(())
}

} // verus!
