//! Residuals with their Jacobians.

use crate::linalg::csr::CsrMatrix;
use crate::linalg::scalar::Scalar;
use crate::text::owned;
use vstd::prelude::*;

verus! {

/// A residual and its derivative by the state.
#[derive(Debug, Clone, PartialEq)]
pub struct ResidualEvaluation<T> {
    pub residual: Vec<T>,
    pub jacobian: CsrMatrix<T>,
}

/// Whether a residual and a Jacobian have the dimensions of a model.
pub open spec fn fits_model<T>(
    evaluation: ResidualEvaluation<T>,
    residual_dimension: nat,
    state_dimension: nat,
) -> bool {
    &&& evaluation.residual@.len() == residual_dimension
    &&& evaluation.jacobian.rows() == residual_dimension
    &&& evaluation.jacobian.cols() == state_dimension
}

impl<T: Scalar> ResidualEvaluation<T> {
    /// Fails unless residual and Jacobian have the dimensions of the model.
    pub fn validate(&self, residual_dimension: usize, state_dimension: usize) -> (checked: Result<
        (),
        String,
    >)
        ensures
            checked is Ok == fits_model(*self, residual_dimension as nat, state_dimension as nat),
            checked matches Err(text) ==> text@
                == "nonlinear residual/Jacobian dimensions do not match the model"@,
    {
        if self.residual.len() != residual_dimension || self.jacobian.nrows() != residual_dimension
            || self.jacobian.ncols() != state_dimension {
            return Err(owned("nonlinear residual/Jacobian dimensions do not match the model"));
        }
        Ok(())
    }
}

/// A model with a residual and a Jacobian for each state.
pub trait ResidualModel<T: Scalar> {
    /// The model is in order.
    spec fn valid(&self) -> bool;

    spec fn state_dim(&self) -> nat;

    spec fn residual_dim(&self) -> nat;

    /// Why there is no residual of a state.
    spec fn state_fault(&self, state: Seq<T>) -> Option<Seq<char>>;

    spec fn residual_spec(&self, state: Seq<T>) -> Seq<T>;

    spec fn jacobian_spec(&self, state: Seq<T>) -> Seq<(usize, usize, T)>;

    fn state_dimension(&self) -> (n: usize)
        requires
            self.valid(),
        ensures
            n == self.state_dim(),
    ;

    fn residual_dimension(&self) -> (n: usize)
        requires
            self.valid(),
        ensures
            n == self.residual_dim(),
    ;

    /// The residual of a state.
    fn residual(&self, state: &[T]) -> (outcome: Result<Vec<T>, String>)
        requires
            self.valid(),
        ensures
            match self.state_fault(state@) {
                Some(message) => outcome matches Err(text) && text@ == message,
                None => outcome matches Ok(residual) && residual@ == self.residual_spec(state@),
            },
    {
        match self.residual_and_jacobian(state) {
            Ok(evaluation) => Ok(evaluation.residual),
            Err(text) => Err(text),
        }
    }

    /// The residual of a state and its Jacobian there.
    fn residual_and_jacobian(&self, state: &[T]) -> (outcome: Result<
        ResidualEvaluation<T>,
        String,
    >)
        requires
            self.valid(),
        ensures
            match self.state_fault(state@) {
                Some(message) => outcome matches Err(text) && text@ == message,
                None => outcome matches Ok(e) && is_evaluation(
                    e,
                    self.residual_spec(state@),
                    self.jacobian_spec(state@),
                    self.residual_dim(),
                    self.state_dim(),
                ),
            },
    ;
}

/// A residual and a Jacobian with the given values.
pub open spec fn is_evaluation<T: Scalar>(
    evaluation: ResidualEvaluation<T>,
    residual: Seq<T>,
    jacobian: Seq<(usize, usize, T)>,
    residual_dimension: nat,
    state_dimension: nat,
) -> bool {
    &&& evaluation.residual@ == residual
    &&& evaluation.jacobian.wf()
    &&& evaluation.jacobian.entries() == jacobian
    &&& fits_model(evaluation, residual_dimension, state_dimension)
}

} // verus!
